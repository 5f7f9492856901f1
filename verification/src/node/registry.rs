//! The connected workers, and who awaits logs.
use vstd::prelude::*;
use crate::protocol::dict::Dict;
use crate::text;

verus! {

/// Whether the session of a worker is the given one.
pub open spec fn is_session(m: Map<Seq<char>, u64>, id: Seq<char>, session: u64) -> bool {
    m.contains_key(id) && m[id] == session
}

/// The workers without one whose session is the given one.
pub open spec fn without_session(m: Map<Seq<char>, u64>, id: Seq<char>, session: u64) -> Map<
    Seq<char>,
    u64,
> {
    if is_session(m, id, session) {
        m.remove(id)
    } else {
        m
    }
}

/// The connected workers: the session of each, by the worker's name.
#[derive(Debug)]
pub struct NodeRegistry {
    sessions: Dict<u64>,
}

impl View for NodeRegistry {
    type V = Map<Seq<char>, u64>;

    closed spec fn view(&self) -> Map<Seq<char>, u64> {
        self.sessions@
    }
}

impl NodeRegistry {
    /// No workers.
    pub fn new() -> (r: Self)
        ensures
            r@ == Map::<Seq<char>, u64>::empty(),
    {
        NodeRegistry { sessions: Dict::new() }
    }

    /// Notes the session of a worker. A session that it had before is forgotten.
    pub fn register(&mut self, node_id: String, session: u64)
        ensures
            final(self)@ == old(self)@.insert(node_id@, session),
    {
        self.sessions.insert(node_id, session);
    }

    /// Forgets a worker: its session, which is to be cleaned up.
    pub fn unregister(&mut self, node_id: &str) -> (r: Option<u64>)
        ensures
            r == if old(self)@.contains_key(node_id@) {
                Some(old(self)@[node_id@])
            } else {
                None
            },
            final(self)@ == old(self)@.remove(node_id@),
    {
        let r: Option<u64> = match self.sessions.get(node_id) {
            Some(s) => Some(*s),
            None => None,
        };
        match r {
            Some(_) => {
                let _ = self.sessions.remove(node_id);
            },
            None => {
                assert(self@.remove(node_id@) =~= self@);
            },
        }
        r
    }

    /// Forgets a worker if its session is the expected one: whether it was.
    pub fn unregister_if_matches(&mut self, node_id: &str, expected: u64) -> (r: bool)
        ensures
            r == is_session(old(self)@, node_id@, expected),
            final(self)@ == without_session(old(self)@, node_id@, expected),
    {
        let found = match self.sessions.get(node_id) {
            Some(s) => *s == expected,
            None => false,
        };
        if found {
            let _ = self.sessions.remove(node_id);
        }
        found
    }

    /// The session of a worker.
    pub fn get(&self, node_id: &str) -> (r: Option<u64>)
        ensures
            r == if self@.contains_key(node_id@) {
                Some(self@[node_id@])
            } else {
                None
            },
    {
        match self.sessions.get(node_id) {
            Some(s) => Some(*s),
            None => None,
        }
    }

    /// The number of workers.
    pub fn len(&self) -> (r: usize)
        ensures
            r == self.list().len(),
    {
        self.sessions.len()
    }

    /// The workers and their sessions.
    pub closed spec fn list(self) -> Seq<(String, u64)> {
        self.sessions.list()
    }

    /// The worker at a position, and its session.
    pub fn entry(&self, i: usize) -> (r: (String, u64))
        requires
            i < self.list().len(),
        ensures
            r == self.list()[i as int],
            self@.contains_key(r.0@),
            self@[r.0@] == r.1,
    {
        let (k, v) = self.sessions.entry(i);
        (k.clone(), *v)
    }
}

/// A worker that registers again is not forgotten when its older session ends.
pub proof fn law_newer_session_stays(m: Map<Seq<char>, u64>, id: Seq<char>, older: u64, newer: u64)
    requires
        older != newer,
    ensures
        without_session(m.insert(id, older).insert(id, newer), id, older) == m.insert(id, newer),
{
    assert(m.insert(id, older).insert(id, newer) =~= m.insert(id, newer));
}

/// Who awaits the logs of a pod: a channel for each key.
#[derive(Debug)]
pub struct LogResponseRegistry {
    waiting: Dict<u64>,
}

impl View for LogResponseRegistry {
    type V = Map<Seq<char>, u64>;

    closed spec fn view(&self) -> Map<Seq<char>, u64> {
        self.waiting@
    }
}

impl LogResponseRegistry {
    /// Nobody waits.
    pub fn new() -> (r: Self)
        ensures
            r@ == Map::<Seq<char>, u64>::empty(),
    {
        LogResponseRegistry { waiting: Dict::new() }
    }

    /// Notes a channel under a key. One that was noted before is forgotten.
    pub fn register(&mut self, key: String, channel: u64)
        ensures
            final(self)@ == old(self)@.insert(key@, channel),
    {
        self.waiting.insert(key, channel);
    }

    /// The channel that an answer with a key goes to.
    pub fn send(&self, key: &str) -> (r: Option<u64>)
        ensures
            r == if self@.contains_key(key@) {
                Some(self@[key@])
            } else {
                None
            },
    {
        match self.waiting.get(key) {
            Some(c) => Some(*c),
            None => None,
        }
    }
}

/// Whether the text is made of ASCII letters and digits.
pub open spec fn is_plain(s: Seq<char>) -> bool {
    forall|i: int|
        0 <= i < s.len() ==> ('a' <= #[trigger] s[i] <= 'z' || 'A' <= s[i] <= 'Z' || '0' <= s[i]
            <= '9')
}

/// The rules that delete a table, as JSON.
pub open spec fn delete_table_text(name: Seq<char>) -> Seq<char> {
    "{\"nftables\":[{\"delete\":{\"table\":{\"family\":\"ip\",\"name\":\""@ + name + "\"}}}]}"@
}

/// `nftables::batch::Batch::delete`, `nftables::batch::Batch::to_nftables` and
/// `serde_json::to_string`: the rules that delete the IP table of a name. Of names that JSON
/// writes with escapes nothing is claimed.
#[verifier::external_body]
fn delete_table_rules(name: &str) -> (r: Option<String>)
    ensures
        is_plain(name@) ==> text::opt_text(r) == Some(delete_table_text(name@)),
{
    let mut batch = nftables::batch::Batch::new();
    batch.delete(nftables::schema::NfListObject::Table(nftables::schema::Table {
        family: nftables::types::NfFamily::IP,
        name: name.to_owned().into(),
        handle: None,
    }));
    serde_json::to_string(&batch.to_nftables()).ok()
}

/// The rules that a worker is sent when it is forgotten: they delete the table of services.
pub fn build_delete_table_ruleset() -> (r: String)
    ensures
        r@ == delete_table_text("rk8s"@),
{
    proof {
        reveal_strlit("rk8s");
        assert(is_plain("rk8s"@));
    }
    match delete_table_rules("rk8s") {
        Some(t) => t,
        None => "{\"nftables\":[]}".to_owned(),
    }
}

/// A session that joined is found until it leaves. One that was replaced cannot remove the one
/// that replaced it, and leaves others alone.
pub proof fn law_session_stays_until_it_leaves(
    registry: &mut NodeRegistry,
    id: &str,
    expected: u64,
    removed: bool,
    after: NodeRegistry,
    other: &str,
    found: Option<u64>,
)
    requires
        call_ensures(NodeRegistry::unregister_if_matches, (registry, id, expected), removed),
        call_ensures(NodeRegistry::get, (&after, other), found),
    ensures
        removed <==> old(registry)@.contains_key(id@) && old(registry)@[id@] == expected,
        after == *final(registry) && other@ == id@ && removed ==> found is None,
        after == *final(registry) && other@ == id@ && !removed && old(registry)@.contains_key(id@)
            ==> found == Some(old(registry)@[id@]),
        after == *final(registry) && other@ != id@ && old(registry)@.contains_key(other@) ==> found
            == Some(old(registry)@[other@]),
{
}

} // verus!
