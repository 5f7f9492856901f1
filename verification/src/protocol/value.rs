//! Values that can be compared and copied, with both operations stated over
//! the value's deep view.
use vstd::prelude::*;

verus! {

/// A value whose comparison and copy agree with its deep view.
pub trait Value: DeepView + Sized {
    /// Whether the two values are equal.
    fn same(&self, other: &Self) -> (r: bool)
        ensures
            r == (self.deep_view() == other.deep_view()),
    ;

    /// An equal value.
    fn copy(&self) -> (r: Self)
        ensures
            r.deep_view() == self.deep_view(),
    ;
}

impl Value for String {
    fn same(&self, other: &Self) -> (r: bool) {
        *self == *other
    }

    fn copy(&self) -> (r: Self)
        ensures
            r == *self,
    {
        self.clone()
    }
}

impl Value for i32 {
    fn same(&self, other: &Self) -> (r: bool) {
        *self == *other
    }

    fn copy(&self) -> (r: Self) {
        *self
    }
}

impl Value for i64 {
    fn same(&self, other: &Self) -> (r: bool) {
        *self == *other
    }

    fn copy(&self) -> (r: Self) {
        *self
    }
}

impl Value for u64 {
    fn same(&self, other: &Self) -> (r: bool) {
        *self == *other
    }

    fn copy(&self) -> (r: Self) {
        *self
    }
}

impl Value for u16 {
    fn same(&self, other: &Self) -> (r: bool) {
        *self == *other
    }

    fn copy(&self) -> (r: Self) {
        *self
    }
}

impl Value for u128 {
    fn same(&self, other: &Self) -> (r: bool) {
        *self == *other
    }

    fn copy(&self) -> (r: Self) {
        *self
    }
}

impl Value for i128 {
    fn same(&self, other: &Self) -> (r: bool) {
        *self == *other
    }

    fn copy(&self) -> (r: Self) {
        *self
    }
}

impl Value for bool {
    fn same(&self, other: &Self) -> (r: bool) {
        *self == *other
    }

    fn copy(&self) -> (r: Self) {
        *self
    }
}

impl<T: Value> Value for Option<T> {
    fn same(&self, other: &Self) -> (r: bool) {
        match (self, other) {
            (Some(a), Some(b)) => a.same(b),
            (None, None) => true,
            _ => false,
        }
    }

    fn copy(&self) -> (r: Self) {
        match self {
            Some(a) => Some(a.copy()),
            None => None,
        }
    }
}

impl<T: Value> Value for Vec<T> {
    fn same(&self, other: &Self) -> (r: bool) {
        if self.len() != other.len() {
            assert(self.deep_view().len() != other.deep_view().len());
            return false;
        }
        for i in 0..self.len()
            invariant
                self.len() == other.len(),
                forall|j: int| 0 <= j < i ==> self.deep_view()[j] == other.deep_view()[j],
        {
            if !self[i].same(&other[i]) {
                assert(self.deep_view()[i as int] != other.deep_view()[i as int]);
                return false;
            }
            assert(self.deep_view()[i as int] == other.deep_view()[i as int]);
        }
        assert(self.deep_view() =~= other.deep_view());
        true
    }

    fn copy(&self) -> (r: Self) {
        let mut out: Vec<T> = Vec::new();
        for i in 0..self.len()
            invariant
                out.len() == i,
                forall|j: int| 0 <= j < i ==> out@[j].deep_view() == self@[j].deep_view(),
        {
            out.push(self[i].copy());
        }
        assert(out.deep_view() =~= self.deep_view());
        out
    }
}

} // verus!
