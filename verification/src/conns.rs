//! The live connections, by the peer at their far end.

use vstd::prelude::*;

use crate::node_id::{same_id, NodeId};

verus! {

/// What a table of connections holds: for each peer that has one, the generation of its
/// connection and the way to send over it; and how many generations have been given out.
#[verifier::ext_equal]
#[verifier::reject_recursive_types(S)]
pub struct Table<S> {
    pub links: Map<Seq<u8>, (nat, S)>,
    pub issued: nat,
}

/// The way to send to a peer, if the table has a connection of it.
pub open spec fn sender_of<S>(table: Table<S>, peer: Seq<u8>) -> Option<S> {
    if table.links.contains_key(peer) {
        Some(table.links[peer].1)
    } else {
        None
    }
}

/// The live connections by far peer. The generation tells one connection of a peer from the next:
/// the end of one that has been superseded must not take the registration of the one in its place.
#[verifier::reject_recursive_types(S)]
pub struct Conns<S> {
    links: Vec<(NodeId, u64, S)>,
    last: u64,
}

/// The place of a peer's connection, or the length where there is none.
spec fn place<S>(links: Seq<(NodeId, u64, S)>, peer: Seq<u8>) -> int
    decreases links.len(),
{
    if links.len() == 0 || links.first().0@ == peer {
        0
    } else {
        1 + place(links.drop_first(), peer)
    }
}

/// `place` finds the first connection of a peer, if there is one.
proof fn lemma_place<S>(links: Seq<(NodeId, u64, S)>, peer: Seq<u8>)
    ensures
        0 <= place(links, peer) <= links.len(),
        place(links, peer) < links.len() ==> links[place(links, peer)].0@ == peer,
        forall|i: int| 0 <= i < place(links, peer) ==> (#[trigger] links[i]).0@ != peer,
    decreases links.len(),
{
    if links.len() > 0 && links.first().0@ != peer {
        let rest = links.drop_first();
        lemma_place(rest, peer);
        assert forall|i: int| 0 <= i < place(links, peer) implies (#[trigger] links[i]).0@
            != peer by {
            if i > 0 {
                assert(rest[i - 1] == links[i]);
            }
        }
    }
}

/// A place that holds a connection of the peer, with none before it, is the first.
proof fn lemma_place_is<S>(links: Seq<(NodeId, u64, S)>, peer: Seq<u8>, at: int)
    requires
        0 <= at <= links.len(),
        at < links.len() ==> links[at].0@ == peer,
        forall|i: int| 0 <= i < at ==> (#[trigger] links[i]).0@ != peer,
    ensures
        place(links, peer) == at,
{
    lemma_place(links, peer);
    let p = place(links, peer);
    if p < at {
        assert(links[p].0@ != peer);
    }
    if at < p {
        assert(links[at].0@ != peer);
    }
}

impl<S> View for Conns<S> {
    type V = Table<S>;

    closed spec fn view(&self) -> Table<S> {
        let links = self.links@;
        Table {
            links: Map::new(
                |peer: Seq<u8>| place(links, peer) < links.len(),
                |peer: Seq<u8>|
                    (links[place(links, peer)].1 as nat, links[place(links, peer)].2),
            ),
            issued: self.last as nat,
        }
    }
}

impl<S> Conns<S> {
    /// A peer has one connection at most, and its generation has been given out to no other.
    pub closed spec fn wf(&self) -> bool {
        &&& forall|i: int, j: int|
            0 <= i < j < self.links@.len() ==> (#[trigger] self.links@[i]).0@ != (
            #[trigger] self.links@[j]).0@
        &&& forall|i: int, j: int|
            0 <= i < j < self.links@.len() ==> (#[trigger] self.links@[i]).1 != (
            #[trigger] self.links@[j]).1
        &&& forall|i: int|
            0 <= i < self.links@.len() ==> 0 < (#[trigger] self.links@[i]).1 <= self.last
    }

    /// No connections.
    pub fn new() -> (r: Conns<S>)
        ensures
            r.wf(),
            r@.links == Map::<Seq<u8>, (nat, S)>::empty(),
            r@.issued == 0,
    {
        let r = Conns { links: Vec::new(), last: 0 };
        assert(r@.links =~= Map::<Seq<u8>, (nat, S)>::empty());
        r
    }

    /// The place of a peer's connection, or the number of connections where there is none.
    fn find(&self, peer: &NodeId) -> (at: usize)
        ensures
            at == place(self.links@, peer@),
            at <= self.links@.len(),
    {
        let mut at: usize = 0;
        while at < self.links.len() && !same_id(&self.links[at].0, peer)
            invariant
                0 <= at <= self.links@.len(),
                forall|i: int| 0 <= i < at ==> (#[trigger] self.links@[i]).0@ != peer@,
            decreases self.links@.len() - at,
        {
            at = at + 1;
        }
        proof {
            lemma_place_is(self.links@, peer@, at as int);
        }
        at
    }

    /// Whether every generation has been given out.
    pub fn exhausted(&self) -> (r: bool)
        ensures
            r == (self@.issued == u64::MAX),
            self@.issued <= u64::MAX,
    {
        self.last == u64::MAX
    }

    /// The way to send to a peer, if it has a connection.
    pub fn sender(&self, to: &NodeId) -> (r: Option<&S>)
        ensures
            sender_of(self@, to@) == match r {
                Some(s) => Some(*s),
                None => None,
            },
    {
        let at = self.find(to);
        if at < self.links.len() {
            Some(&self.links[at].2)
        } else {
            None
        }
    }

    /// Registers a connection under a new generation, in place of the one that the peer had.
    pub fn register(&mut self, peer: NodeId, sender: S) -> (generation: u64)
        requires
            old(self).wf(),
            old(self)@.issued < u64::MAX,
        ensures
            final(self).wf(),
            generation == old(self)@.issued + 1,
            final(self)@ == (Table {
                links: old(self)@.links.insert(peer@, (generation as nat, sender)),
                issued: generation as nat,
            }),
    {
        let ghost before = self.links@;
        let generation = self.last + 1;
        let at = self.find(&peer);
        proof {
            lemma_place(before, peer@);
        }
        self.last = generation;
        if at < self.links.len() {
            self.links.set(at, (peer, generation, sender));
        } else {
            self.links.push((peer, generation, sender));
        }
        proof {
            let after = self.links@;
            assert forall|p: Seq<u8>| #[trigger] place(after, p) == (if p == peer@ {
                at as int
            } else if place(before, p) < before.len() {
                place(before, p)
            } else {
                after.len() as int
            }) by {
                lemma_place(before, p);
                let q = if p == peer@ {
                    at as int
                } else if place(before, p) < before.len() {
                    place(before, p)
                } else {
                    after.len() as int
                };
                assert forall|i: int| 0 <= i < q implies (#[trigger] after[i]).0@ != p by {
                    if i != at {
                        assert(after[i] == before[i]);
                    }
                }
                lemma_place_is(after, p, q);
            }
            let updated = old(self)@.links.insert(peer@, (generation as nat, sender));
            assert forall|p: Seq<u8>| #[trigger]
                self@.links.contains_key(p) == updated.contains_key(p) && (updated.contains_key(p)
                    ==> self@.links[p] == updated[p]) by {
                lemma_place(before, p);
                assert(place(after, p) <= after.len());
            }
            assert(self@.links =~= updated);
        }
        generation
    }

    /// Takes out a peer's connection if it still is the one of this generation; says whether it
    /// was.
    pub fn deregister(&mut self, peer: &NodeId, generation: u64) -> (still_ours: bool)
        requires
            old(self).wf(),
        ensures
            final(self).wf(),
            still_ours == (old(self)@.links.contains_key(peer@) && old(self)@.links[peer@].0
                == generation),
            final(self)@ == if still_ours {
                (Table { links: old(self)@.links.remove(peer@), issued: old(self)@.issued })
            } else {
                old(self)@
            },
    {
        let ghost before = self.links@;
        let at = self.find(peer);
        proof {
            lemma_place(before, peer@);
        }
        if at < self.links.len() && self.links[at].1 == generation {
            let _ = self.links.remove(at);
            proof {
                let after = self.links@;
                assert forall|p: Seq<u8>| #[trigger] place(after, p) == (if p == peer@ {
                    after.len() as int
                } else if place(before, p) > at {
                    place(before, p) - 1
                } else {
                    place(before, p)
                }) by {
                    lemma_place(before, p);
                    let q = if p == peer@ {
                        after.len() as int
                    } else if place(before, p) > at {
                        place(before, p) - 1
                    } else {
                        place(before, p)
                    };
                    assert forall|i: int| 0 <= i < q implies (#[trigger] after[i]).0@ != p by {
                        if i < at {
                            assert(after[i] == before[i]);
                        } else {
                            assert(after[i] == before[i + 1]);
                            if p == peer@ {
                                assert(before[at as int].0@ != before[i + 1].0@);
                            }
                        }
                    }
                    lemma_place_is(after, p, q);
                }
                let updated = old(self)@.links.remove(peer@);
                assert forall|p: Seq<u8>| #[trigger]
                    self@.links.contains_key(p) == updated.contains_key(p) && (
                    updated.contains_key(p) ==> self@.links[p] == updated[p]) by {
                    lemma_place(before, p);
                    assert(place(after, p) <= after.len());
                }
                assert(self@.links =~= updated);
            }
            true
        } else {
            false
        }
    }

    /// In a table of connections generations count up from one, and no two peers share one.
    pub proof fn law_generations_are_not_shared(&self)
        requires
            self.wf(),
        ensures
            forall|p: Seq<u8>| #[trigger]
                self@.links.contains_key(p) ==> 0 < self@.links[p].0 <= self@.issued,
            forall|p: Seq<u8>, q: Seq<u8>| #[trigger]
                self@.links.contains_key(p) && #[trigger] self@.links.contains_key(q) && p != q
                    ==> self@.links[p].0 != self@.links[q].0,
    {
        let links = self.links@;
        assert forall|p: Seq<u8>| #[trigger] self@.links.contains_key(p) implies 0
            < self@.links[p].0 <= self@.issued by {
            lemma_place(links, p);
        }
        assert forall|p: Seq<u8>, q: Seq<u8>| #[trigger]
            self@.links.contains_key(p) && #[trigger] self@.links.contains_key(q) && p
                != q implies self@.links[p].0 != self@.links[q].0 by {
            lemma_place(links, p);
            lemma_place(links, q);
            let i = place(links, p);
            let j = place(links, q);
            if i < j {
                assert(links[i].1 != links[j].1);
            } else {
                assert(i != j);
                assert(links[j].1 != links[i].1);
            }
        }
    }
}

} // verus!
