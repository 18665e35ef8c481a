//! The allow-list a tracker in listed mode consults: a torrent absent
//! from it is refused.

use vstd::prelude::*;
use crate::info_hash::InfoHash;

verus! {

/// True when the list holds the hash.
pub open spec fn spec_whitelisted(ws: Seq<InfoHash>, h: Seq<u8>) -> bool {
    exists|i: int| 0 <= i < ws.len() && ws[i]@ == h
}

/// The operator-curated allow-list of torrents.
pub struct InMemoryWhitelist {
    pub hashes: Vec<InfoHash>,
}

impl InMemoryWhitelist {
    /// Each hash appears at most once.
    pub open spec fn wf(self) -> bool {
        forall|i: int, j: int|
            0 <= i < j < self.hashes@.len()
                ==> (#[trigger] self.hashes@[i])@ != (#[trigger] self.hashes@[j])@
    }

    pub fn new() -> (r: InMemoryWhitelist)
        ensures
            r.wf(),
            r.hashes@.len() == 0,
    {
        InMemoryWhitelist { hashes: Vec::new() }
    }

    fn find(&self, h: &InfoHash) -> (r: Option<usize>)
        ensures
            r matches Some(i) ==> i < self.hashes@.len() && self.hashes@[i as int]@ == h@,
            r is None ==> !spec_whitelisted(self.hashes@, h@),
    {
        let mut i: usize = 0;
        while i < self.hashes.len()
            invariant
                i <= self.hashes@.len(),
                forall|k: int| 0 <= k < i ==> (#[trigger] self.hashes@[k])@ != h@,
            decreases self.hashes@.len() - i,
        {
            if self.hashes[i].eq_bytes(h) {
                return Some(i);
            }
            i = i + 1;
        }
        None
    }

    /// Whether announces for this torrent are allowed in listed mode.
    pub fn contains(&self, h: &InfoHash) -> (r: bool)
        ensures
            r == spec_whitelisted(self.hashes@, h@),
    {
        self.find(h).is_some()
    }

    /// Admits a torrent; adding one already listed changes nothing.
    pub fn add(&mut self, h: &InfoHash)
        requires
            old(self).wf(),
        ensures
            final(self).wf(),
            spec_whitelisted(final(self).hashes@, h@),
            forall|w: Seq<u8>| w != h@ ==> (spec_whitelisted(final(self).hashes@, w)
                <==> spec_whitelisted(old(self).hashes@, w)),
    {
        let ghost ws0 = self.hashes@;
        match self.find(h) {
            Some(_) => {},
            None => {
                self.hashes.push(*h);
                proof {
                    let ws1 = self.hashes@;
                    assert forall|a: int, b: int| 0 <= a < b < ws1.len()
                        implies (#[trigger] ws1[a])@ != (#[trigger] ws1[b])@ by {
                        if b < ws0.len() {
                            assert(ws0[a]@ != ws0[b]@);
                        } else {
                            assert(ws1[b]@ == h@);
                            if ws1[a]@ == h@ {
                                assert(spec_whitelisted(ws0, h@));
                            }
                        }
                    }
                    assert(ws1[ws0.len() as int]@ == h@);
                    assert forall|w: Seq<u8>| w != h@
                        implies (spec_whitelisted(ws1, w) <==> spec_whitelisted(ws0, w)) by {
                        if spec_whitelisted(ws1, w) {
                            let j = choose|j: int| 0 <= j < ws1.len() && ws1[j]@ == w;
                            assert(j < ws0.len());
                            assert(ws0[j]@ == w);
                        }
                        if spec_whitelisted(ws0, w) {
                            let j = choose|j: int| 0 <= j < ws0.len() && ws0[j]@ == w;
                            assert(ws1[j]@ == w);
                        }
                    }
                }
            },
        }
    }

    /// Removes a torrent from the list, if present.
    pub fn remove(&mut self, h: &InfoHash) -> (removed: bool)
        requires
            old(self).wf(),
        ensures
            final(self).wf(),
            removed == spec_whitelisted(old(self).hashes@, h@),
            !spec_whitelisted(final(self).hashes@, h@),
            forall|w: Seq<u8>| w != h@ ==> (spec_whitelisted(final(self).hashes@, w)
                <==> spec_whitelisted(old(self).hashes@, w)),
    {
        let ghost ws0 = self.hashes@;
        match self.find(h) {
            None => false,
            Some(i) => {
                self.hashes.remove(i);
                proof {
                    let ws1 = self.hashes@;
                    assert(ws1 =~= ws0.subrange(0, i as int) + ws0.subrange(i + 1,
                        ws0.len() as int));
                    assert forall|j: int| 0 <= j < ws1.len()
                        implies (#[trigger] ws1[j])@ != h@ by {
                        if j < i {
                            assert(ws1[j] == ws0[j]);
                            assert(ws0[j]@ != ws0[i as int]@);
                        } else {
                            assert(ws1[j] == ws0[j + 1]);
                            assert(ws0[i as int]@ != ws0[j + 1]@);
                        }
                    }
                    assert forall|a: int, b: int| 0 <= a < b < ws1.len()
                        implies (#[trigger] ws1[a])@ != (#[trigger] ws1[b])@ by {
                        let a0 = if a < i { a } else { a + 1 };
                        let b0 = if b < i { b } else { b + 1 };
                        assert(ws1[a] == ws0[a0]);
                        assert(ws1[b] == ws0[b0]);
                    }
                    assert forall|w: Seq<u8>| w != h@
                        implies (spec_whitelisted(ws1, w) <==> spec_whitelisted(ws0, w)) by {
                        if spec_whitelisted(ws1, w) {
                            let j = choose|j: int| 0 <= j < ws1.len() && ws1[j]@ == w;
                            if j < i {
                                assert(ws0[j]@ == w);
                            } else {
                                assert(ws0[j + 1]@ == w);
                            }
                        }
                        if spec_whitelisted(ws0, w) {
                            let j = choose|j: int| 0 <= j < ws0.len() && ws0[j]@ == w;
                            assert(j != i);
                            if j < i {
                                assert(ws1[j]@ == w);
                            } else {
                                assert(ws1[j - 1]@ == w);
                            }
                        }
                    }
                }
                true
            },
        }
    }
}

} // verus!
