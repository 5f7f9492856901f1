//! The names of the annotations of a node.
use vstd::prelude::*;
use crate::text::{chars_of, concat2};

verus! {

/// Kubernetes annotations
#[derive(Debug)]
pub struct Annotations {
    pub subnet_kube_managed: String,
    pub backend_data: String,
    pub backend_v6_data: String,
    pub backend_type: String,
    pub backend_public_ip: String,
    pub backend_node_public_ip: String,
    pub backend_public_ip_overwrite: String,
    pub backend_public_ipv6: String,
    pub backend_node_public_ipv6: String,
    pub backend_public_ipv6_overwrite: String,
}

/// How often a character occurs in a text.
pub open spec fn occurrences(s: Seq<char>, c: char) -> nat
    decreases s.len(),
{
    if s.len() == 0 {
        0
    } else {
        occurrences(s.drop_last(), c) + if s.last() == c {
            1nat
        } else {
            0nat
        }
    }
}

/// The prefix with a slash, and with a dash at its end unless the slash stands there.
pub open spec fn completed(prefix: Seq<char>) -> Seq<char> {
    let p = if occurrences(prefix, '/') == 0 {
        prefix.push('/')
    } else {
        prefix
    };
    if p.len() > 0 && (p.last() == '/' || p.last() == '-') {
        p
    } else {
        p.push('-')
    }
}

/// The form of a completed prefix.
pub open spec fn prefix_pattern() -> Seq<char> {
    r"^(?:[a-z0-9_-]+\.)+[a-z0-9_-]+/(?:[a-z0-9_-]+-)?$"@
}

/// Whether a text has a match of a pattern; nothing when the pattern is none.
pub uninterp spec fn has_match(pattern: Seq<char>, s: Seq<char>) -> Option<bool>;

/// `regex::Regex::new` and `regex::Regex::is_match`: the result depends on the pattern and the
/// text alone.
#[verifier::external_body]
fn matches_pattern(pattern: &str, s: &str) -> (r: Option<bool>)
    ensures
        r == has_match(pattern@, s@),
{
    regex::Regex::new(pattern).ok().map(|re| re.is_match(s))
}

/// Whether the annotations are the ones under a prefix.
pub open spec fn are_under(a: Annotations, p: Seq<char>) -> bool {
    &&& a.subnet_kube_managed@ == p + "rks-subnet-manager"@
    &&& a.backend_data@ == p + "backend-data"@
    &&& a.backend_v6_data@ == p + "backend-v6-data"@
    &&& a.backend_type@ == p + "backend-type"@
    &&& a.backend_public_ip@ == p + "public-ip"@
    &&& a.backend_node_public_ip@ == p + "node-public-ip"@
    &&& a.backend_public_ip_overwrite@ == p + "public-ip-overwrite"@
    &&& a.backend_public_ipv6@ == p + "public-ipv6"@
    &&& a.backend_node_public_ipv6@ == p + "node-public-ipv6"@
    &&& a.backend_public_ipv6_overwrite@ == p + "public-ipv6-overwrite"@
}

/// The annotations under a completed prefix, or why there are none. `matched` tells whether
/// the prefix has the form that it must have.
pub fn annotations_under(prefix: &str, matched: Option<bool>) -> (r: Result<Annotations, String>)
    ensures
        match matched {
            Some(true) => r matches Ok(a) && are_under(a, prefix@),
            Some(false) => r matches Err(m) && m@
                == "subnet/kube: prefix must be in a format: fqdn/[0-9a-z-_]*"@,
            None => r matches Err(m) && m@ == "regex parse error"@,
        },
{
    match matched {
        Some(true) => Ok(
            Annotations {
                subnet_kube_managed: concat2(prefix, "rks-subnet-manager"),
                backend_data: concat2(prefix, "backend-data"),
                backend_v6_data: concat2(prefix, "backend-v6-data"),
                backend_type: concat2(prefix, "backend-type"),
                backend_public_ip: concat2(prefix, "public-ip"),
                backend_node_public_ip: concat2(prefix, "node-public-ip"),
                backend_public_ip_overwrite: concat2(prefix, "public-ip-overwrite"),
                backend_public_ipv6: concat2(prefix, "public-ipv6"),
                backend_node_public_ipv6: concat2(prefix, "node-public-ipv6"),
                backend_public_ipv6_overwrite: concat2(prefix, "public-ipv6-overwrite"),
            },
        ),
        Some(false) => Err(
            "subnet/kube: prefix must be in a format: fqdn/[0-9a-z-_]*".to_owned(),
        ),
        None => Err("regex parse error".to_owned()),
    }
}

fn count_char(v: &Vec<char>, c: char) -> (r: usize)
    ensures
        r == occurrences(v@, c),
{
    let mut n: usize = 0;
    for i in 0..v.len()
        invariant
            n == occurrences(v@.take(i as int), c),
            n <= i,
    {
        proof {
            assert(v@.take(i + 1).drop_last() =~= v@.take(i as int));
            assert(v@.take(i + 1).last() == v@[i as int]);
        }
        if v[i] == c {
            n = n + 1;
        }
    }
    assert(v@.take(v@.len() as int) =~= v@);
    n
}

/// The prefix with a slash, and with a dash at its end unless the slash stands there.
pub fn complete_prefix(prefix: &str) -> (r: String)
    ensures
        r@ == completed(prefix@),
{
    let v = chars_of(prefix);
    let mut p = prefix.to_owned();
    let mut last: Option<char> = if v.len() > 0 {
        Some(v[v.len() - 1])
    } else {
        None
    };
    if count_char(&v, '/') == 0 {
        p.push('/');
        last = Some('/');
    }
    match last {
        Some(c) => {
            if c != '/' && c != '-' {
                p.push('-');
            }
        },
        None => {
            p.push('-');
        },
    }
    p
}

/// The annotations under a prefix: a domain name, a slash and possibly a word.
pub fn new_annotations(prefix: &str) -> (r: Result<Annotations, String>)
    ensures
        if occurrences(prefix@, '/') > 1 {
            r matches Err(m) && m@ == "subnet/kube: prefix can contain at most single slash"@
        } else {
            match has_match(prefix_pattern(), completed(prefix@)) {
                Some(true) => r matches Ok(a) && are_under(a, completed(prefix@)),
                Some(false) => r matches Err(m) && m@
                    == "subnet/kube: prefix must be in a format: fqdn/[0-9a-z-_]*"@,
                None => r matches Err(m) && m@ == "regex parse error"@,
            }
        },
{
    let v = chars_of(prefix);
    if count_char(&v, '/') > 1 {
        return Err("subnet/kube: prefix can contain at most single slash".to_owned());
    }
    let p = complete_prefix(prefix);
    let matched = matches_pattern(
        r"^(?:[a-z0-9_-]+\.)+[a-z0-9_-]+/(?:[a-z0-9_-]+-)?$",
        p.as_str(),
    );
    annotations_under(p.as_str(), matched)
}

/// Completing a prefix again changes nothing.
pub proof fn law_completion_is_idempotent(prefix: Seq<char>)
    ensures
        completed(completed(prefix)) == completed(prefix),
{
    let p = if occurrences(prefix, '/') == 0 {
        prefix.push('/')
    } else {
        prefix
    };
    if occurrences(prefix, '/') == 0 {
        assert(p.drop_last() =~= prefix);
        assert(occurrences(p, '/') == 1);
    }
    let q = p.push('-');
    assert(q.drop_last() =~= p);
    assert(occurrences(q, '/') == occurrences(p, '/'));
}

proof fn lemma_occurrences(s: Seq<char>, c: char)
    ensures
        occurrences(s, c) == 0 <==> !s.contains(c),
        occurrences(s, c) <= 1 <==> forall|i: int, j: int|
            0 <= i < j < s.len() && #[trigger] s[i] == c ==> #[trigger] s[j] != c,
    decreases s.len(),
{
    if s.len() > 0 {
        let less = s.drop_last();
        lemma_occurrences(less, c);
        let n = s.len() - 1;
        if s.contains(c) {
            let k = choose|k: int| 0 <= k < s.len() && s[k] == c;
            if k < n {
                assert(less[k] == c);
            }
        }
        if less.contains(c) {
            let k = choose|k: int| 0 <= k < less.len() && less[k] == c;
            assert(s[k] == c);
            if s.last() == c {
                assert(s[k] == c && s[n] == c);
            }
        }
        if occurrences(less, c) > 1 {
            let (i, j) = choose|i: int, j: int|
                0 <= i < j < less.len() && #[trigger] less[i] == c && #[trigger] less[j] == c;
            assert(s[i] == c && s[j] == c);
        }
        if occurrences(s, c) <= 1 {
            assert forall|i: int, j: int|
                0 <= i < j < s.len() && #[trigger] s[i] == c implies #[trigger] s[j] != c by {
                assert(less[i] == c);
                if j < n {
                    assert(less[j] == s[j]);
                }
            }
        }
    }
}

/// A prefix is completed with a slash where it has none, and with a dash where it ends in neither;
/// nothing is taken from it. More than one slash is refused.
pub proof fn law_prefix_is_completed(prefix: &str, r: String, made: Result<Annotations, String>)
    requires
        call_ensures(complete_prefix, (prefix,), r),
        call_ensures(new_annotations, (prefix,), made),
    ensures
        prefix@.is_prefix_of(r@),
        r@.contains('/'),
        r@.last() == '/' || r@.last() == '-',
        !prefix@.contains('/') ==> r@ == prefix@.push('/'),
        prefix@.contains('/') && (prefix@.last() == '/' || prefix@.last() == '-') ==> r@ == prefix@,
        prefix@.contains('/') && !(prefix@.last() == '/' || prefix@.last() == '-') ==> r@
            == prefix@.push('-'),
        (exists|i: int, j: int|
            0 <= i < j < prefix@.len() && #[trigger] prefix@[i] == '/' && #[trigger] prefix@[j]
                == '/') ==> made is Err,
        made matches Ok(a) ==> a.backend_data@ == r@ + "backend-data"@ && a.backend_type@ == r@
            + "backend-type"@ && a.backend_public_ip@ == r@ + "public-ip"@ && a.backend_public_ipv6@
            == r@ + "public-ipv6"@,
{
    lemma_occurrences(prefix@, '/');
    if !prefix@.contains('/') {
        assert(prefix@.push('/').last() == '/');
        assert(r@[prefix@.len() as int] == '/');
    } else {
        let k = choose|k: int| 0 <= k < prefix@.len() && prefix@[k] == '/';
        assert(r@[k] == '/');
    }
    assert(r@.subrange(0, prefix@.len() as int) =~= prefix@);
}

} // verus!
