//! Peer discovery bookkeeping: the in-memory directory of known peers, fed
//! by resolve/remove events from the LAN service browser, and the hostname
//! normalization used when publishing this instance's record.

use vstd::prelude::*;
use vstd::string::StrSliceExecFns;
use vstd::string::StringExecFns;

verus! {

/// One known peer, keyed by its stable discovery name.
#[derive(Clone, Debug)]
pub struct Peer {
    pub name: String,
    pub hostname: String,
    pub ip: Vec<String>,
    pub port: u16,
}

/// One discovery event: a record was resolved, or a named peer went away.
#[derive(Clone, Debug)]
pub enum PeerEvent {
    Resolved(Peer),
    Removed(String),
}

/// The in-memory table of known peers. Entries are unique by name; a
/// re-resolution updates the existing entry in place.
pub struct PeerDirectory {
    pub peers: Vec<Peer>,
}

impl PeerDirectory {
    /// No two entries share a name.
    pub open spec fn wf(&self) -> bool {
        forall|i: int, j: int|
            0 <= i < j < self.peers@.len() ==> self.peers@[i].name@ != self.peers@[j].name@
    }

    /// Whether some entry has this name.
    pub open spec fn spec_contains(&self, name: Seq<char>) -> bool {
        exists|i: int| 0 <= i < self.peers@.len() && self.peers@[i].name@ == name
    }

    pub fn new() -> (d: PeerDirectory)
        ensures
            d.wf(),
            d.peers@.len() == 0,
    {
        PeerDirectory { peers: Vec::new() }
    }

    /// The index of the entry with this name, if any.
    fn find(&self, name: &String) -> (r: Option<usize>)
        ensures
            r is Some ==> 0 <= r->0 < self.peers@.len() && self.peers@[r->0 as int].name@
                == name@,
            r is None ==> !self.spec_contains(name@),
    {
        let mut i: usize = 0;
        while i < self.peers.len()
            invariant
                i <= self.peers@.len(),
                forall|k: int| 0 <= k < i ==> self.peers@[k].name@ != name@,
            decreases self.peers@.len() - i,
        {
            if self.peers[i].name.eq(name) {
                return Some(i);
            }
            i += 1;
        }
        None
    }

    /// Applies a `Resolved` event idempotently: a known name is updated in
    /// place (last write wins on addresses and the rest), an unknown name is
    /// added. Either way the directory afterwards holds exactly one entry
    /// carrying this peer's latest fields, and no other entry moves.
    pub fn apply_resolved(&mut self, peer: Peer) -> (known: bool)
        requires
            old(self).wf(),
        ensures
            final(self).wf(),
            known == old(self).spec_contains(peer.name@),
            final(self).spec_contains(peer.name@),
            known ==> exists|i: int|
                0 <= i < old(self).peers@.len() && old(self).peers@[i].name@ == peer.name@
                    && final(self).peers@ == old(self).peers@.update(i, peer),
            !known ==> final(self).peers@ == old(self).peers@.push(peer),
    {
        match self.find(&peer.name) {
            Some(i) => {
                proof {
                    assert(old(self).peers@[i as int].name@ == peer.name@);
                }
                self.peers.set(i, peer);
                proof {
                    assert(self.peers@[i as int] == peer);
                    assert(self.peers@[i as int].name@ == peer.name@);
                }
                true
            },
            None => {
                self.peers.push(peer);
                proof {
                    assert(self.peers@[self.peers@.len() - 1].name@ == peer.name@);
                }
                false
            },
        }
    }

    /// Applies a `Removed` event: deletes the entry with this name if it is
    /// there, and reports whether it was, so a peer-lost notification goes
    /// out exactly once. Unknown names change nothing.
    pub fn apply_removed(&mut self, name: &String) -> (existed: bool)
        requires
            old(self).wf(),
        ensures
            final(self).wf(),
            existed == old(self).spec_contains(name@),
            !final(self).spec_contains(name@),
            existed ==> exists|i: int|
                0 <= i < old(self).peers@.len() && old(self).peers@[i].name@ == name@
                    && final(self).peers@ == old(self).peers@.remove(i),
            !existed ==> final(self).peers@ == old(self).peers@,
    {
        match self.find(name) {
            Some(i) => {
                proof {
                    assert(old(self).peers@[i as int].name@ == name@);
                }
                self.peers.remove(i);
                proof {
                    assert forall|k: int|
                        0 <= k < self.peers@.len() implies self.peers@[k].name@ != name@ by {
                        if k < i {
                            assert(self.peers@[k] == old(self).peers@[k]);
                        } else {
                            assert(self.peers@[k] == old(self).peers@[k + 1]);
                        }
                    }
                }
                true
            },
            None => false,
        }
    }

    /// How many peers are known.
    pub fn len(&self) -> (n: usize)
        ensures
            n == self.peers@.len(),
    {
        self.peers.len()
    }

    /// The entry with this name, if any.
    pub fn lookup(&self, name: &String) -> (r: Option<&Peer>)
        ensures
            r is Some ==> exists|i: int|
                0 <= i < self.peers@.len() && self.peers@[i] == *r->0 && self.peers@[i].name@
                    == name@,
            r is None ==> !self.spec_contains(name@),
    {
        match self.find(name) {
            Some(i) => Some(&self.peers[i]),
            None => None,
        }
    }

    /// In a well-formed directory a name picks out at most one entry: two
    /// resolutions of the same name can never leave duplicates behind.
    pub proof fn lemma_name_unique(&self, i: int, j: int)
        requires
            self.wf(),
            0 <= i < self.peers@.len(),
            0 <= j < self.peers@.len(),
            self.peers@[i].name@ == self.peers@[j].name@,
        ensures
            i == j,
    {
    }
}

/// The view a normalized hostname must have: the published record wants the
/// bare host name rounded off with the `.local.` domain, exactly once.
pub open spec fn spec_normalized(h: Seq<char>, r: Seq<char>) -> bool {
    if h.len() >= 7 && h.subrange(h.len() - 7, h.len() as int) == ".local."@ {
        r == h
    } else if h.len() >= 6 && h.subrange(h.len() - 6, h.len() as int) == ".local"@ {
        r == h + "."@
    } else {
        r == h + ".local."@
    }
}

/// Whether `s` ends with `suffix`, character for character.
fn ends_with_chars(s: &str, suffix: &str) -> (r: bool)
    ensures
        r == (s@.len() >= suffix@.len() && s@.subrange(
            s@.len() - suffix@.len(),
            s@.len() as int,
        ) == suffix@),
{
    let n = s.unicode_len();
    let m = suffix.unicode_len();
    if n < m {
        return false;
    }
    let mut i: usize = 0;
    while i < m
        invariant
            m <= n == s@.len(),
            m == suffix@.len(),
            i <= m,
            forall|k: int| 0 <= k < i ==> s@[s@.len() - suffix@.len() + k] == suffix@[k],
        decreases m - i,
    {
        if s.get_char(n - m + i) != suffix.get_char(i) {
            proof {
                assert(s@.subrange(s@.len() - suffix@.len(), s@.len() as int)[i as int]
                    != suffix@[i as int]);
            }
            return false;
        }
        i += 1;
    }
    proof {
        assert(s@.subrange(s@.len() - suffix@.len(), s@.len() as int) =~= suffix@);
    }
    true
}

/// Rounds a host name off with the `.local.` domain for the published
/// discovery record, adding only what is missing.
pub fn normalize_hostname(hostname: String) -> (r: String)
    ensures
        spec_normalized(hostname@, r@),
{
    proof {
        reveal_strlit(".local.");
        reveal_strlit(".local");
        reveal_strlit(".");
    }
    if ends_with_chars(hostname.as_str(), ".local.") {
        hostname
    } else if ends_with_chars(hostname.as_str(), ".local") {
        let mut r = hostname;
        r.append(".");
        r
    } else {
        let mut r = hostname;
        r.append(".local.");
        r
    }
}

} // verus!
