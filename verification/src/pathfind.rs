use vstd::prelude::*;
use crate::galaxy::Galaxy;
use crate::ids::{contains_id, copy_ids};
use crate::reach::{is_path, lemma_path_prepend};
use crate::sector::SectorId;

verus! {

/// A walk from `from` to `to` that a caller-supplied avoidance list `av`
/// permits: no inner sector of the walk occurs in `av`. The endpoints are
/// exempt; in particular the destination may be listed in `av`.
pub open spec fn valid_avoiding_path(
    g: &Galaxy,
    p: Seq<SectorId>,
    from: SectorId,
    to: SectorId,
    av: Seq<SectorId>,
) -> bool {
    &&& is_path(g, p, from, to)
    &&& p.len() >= 2
    &&& forall|i: int| 1 <= i < p.len() - 1 ==> !av.contains(#[trigger] p[i])
}

/// From any permitted walk one can cut out revisits of the starting sector,
/// leaving a permitted walk that is no longer and keeps away from the start.
pub proof fn lemma_avoiding_path_no_revisit(
    g: &Galaxy,
    p: Seq<SectorId>,
    from: SectorId,
    to: SectorId,
    av: Seq<SectorId>,
) -> (q: Seq<SectorId>)
    requires
        valid_avoiding_path(g, p, from, to, av),
        from != to,
    ensures
        valid_avoiding_path(g, q, from, to, av),
        q.len() <= p.len(),
        forall|i: int| 1 <= i < q.len() ==> q[i] != from,
    decreases p.len(),
{
    if exists|k: int| 1 <= k < p.len() && p[k] == from {
        let k = choose|k: int| 1 <= k < p.len() && p[k] == from;
        assert(p[p.len() - 1] == to);
        assert(k < p.len() - 1);
        let p3 = p.subrange(k, p.len() as int);
        assert(p3[0] == from);
        assert(p3[p3.len() - 1] == to);
        assert forall|i: int| 0 <= i < p3.len() - 1 implies #[trigger] g.linked(p3[i], p3[i + 1]) by {
            assert(g.linked(p[k + i], p[k + i + 1]));
        }
        assert forall|i: int| 1 <= i < p3.len() - 1 implies !av.contains(#[trigger] p3[i]) by {
            assert(p3[i] == p[k + i]);
            assert(!av.contains(p[k + i]));
        }
        assert(valid_avoiding_path(g, p3, from, to, av));
        lemma_avoiding_path_no_revisit(g, p3, from, to, av)
    } else {
        p
    }
}

/// The sectors still open to a search: in range and not on the avoidance
/// list. Its size shrinks as the search adds sectors to the list, which is
/// what bounds the recursion of `find_shortest_path_avoiding`.
pub open spec fn free_sector_set(g: &Galaxy, av: Seq<SectorId>) -> Set<int> {
    Set::new(|x: int| 1 <= x <= g.sector_count() && !av.contains(x as SectorId))
}

pub proof fn lemma_free_sector_set_finite(g: &Galaxy, av: Seq<SectorId>)
    ensures
        free_sector_set(g, av).finite(),
        free_sector_set(g, av).len() <= g.sector_count(),
{
    let whole = vstd::set_lib::set_int_range(1, g.sector_count() as int + 1);
    vstd::set_lib::lemma_int_range(1, g.sector_count() as int + 1);
    vstd::set_lib::lemma_len_subset(free_sector_set(g, av), whole);
}

impl Galaxy {
    /// Finds a shortest path from one sector to another while keeping away
    /// from the listed sectors, except that the destination itself is exempt.
    /// The result lists the sectors to traverse in order, ending with the
    /// destination and not including the starting sector. An empty result
    /// means there is nothing to do (`from == to`), the starting sector is
    /// unknown, or no permitted path exists; these are query outcomes, not
    /// errors.
    pub fn find_shortest_path_avoiding(
        &self,
        from_sector_id: SectorId,
        to_sector_id: SectorId,
        avoiding: &Vec<SectorId>,
    ) -> (r: Vec<SectorId>)
        requires
            self.wf(),
        ensures
            from_sector_id == to_sector_id ==> r@.len() == 0,
            r@.len() > 0 ==> is_path(self, seq![from_sector_id] + r@, from_sector_id, to_sector_id),
            r@.len() > 0 ==> forall|i: int|
                0 <= i < r@.len() - 1 ==> !avoiding@.contains(#[trigger] r@[i]),
            forall|p: Seq<SectorId>|
                r@.len() > 0 && #[trigger] valid_avoiding_path(
                    self,
                    p,
                    from_sector_id,
                    to_sector_id,
                    avoiding@,
                ) ==> r@.len() + 1 <= p.len(),
            from_sector_id != to_sector_id && r@.len() == 0 ==> forall|p: Seq<SectorId>|
                !valid_avoiding_path(self, p, from_sector_id, to_sector_id, avoiding@),
        decreases
                free_sector_set(self, avoiding@).len(),
                (if avoiding@.contains(from_sector_id) {
                    1int
                } else {
                    0int
                }),
    {
        // The path to ourselves is trivially empty.
        if from_sector_id == to_sector_id {
            return Vec::new();
        }
        // An unknown starting sector has no outgoing links; nothing to find.
        if from_sector_id < 1 || from_sector_id > self.sectors.len() {
            proof {
                assert forall|p: Seq<SectorId>| !valid_avoiding_path(
                    self,
                    p,
                    from_sector_id,
                    to_sector_id,
                    avoiding@,
                ) by {
                    if valid_avoiding_path(self, p, from_sector_id, to_sector_id, avoiding@) {
                        assert(self.linked(p[0int], p[0int + 1]));
                    }
                }
            }
            return Vec::new();
        }
        let links = &self.sectors[from_sector_id - 1].sector_links;

        // Fast path: a direct link to the target needs no recursion.
        let n = links.len();
        let mut i: usize = 0;
        while i < n
            invariant
                n == links@.len(),
                0 <= i <= n,
                1 <= from_sector_id <= self.sector_count(),
                from_sector_id != to_sector_id,
                links@ == self.links_of(from_sector_id),
                forall|k: int| 0 <= k < i ==> links@[k] != to_sector_id,
            decreases n - i,
        {
            if links[i] == to_sector_id {
                let mut direct: Vec<SectorId> = Vec::new();
                direct.push(to_sector_id);
                proof {
                    let q = seq![from_sector_id] + direct@;
                    assert(q.len() == 2);
                    assert(q[0] == from_sector_id && q[1] == to_sector_id);
                    assert(self.links_of(from_sector_id)[i as int] == to_sector_id);
                    assert(self.links_of(from_sector_id).contains(to_sector_id));
                    assert forall|j: int| 0 <= j < q.len() - 1 implies #[trigger] self.linked(
                        q[j],
                        q[j + 1],
                    ) by {
                        assert(q[j] == from_sector_id && q[j + 1] == to_sector_id);
                    }
                    assert(is_path(self, q, from_sector_id, to_sector_id));
                    assert forall|p: Seq<SectorId>|
                        direct@.len() > 0 && #[trigger] valid_avoiding_path(
                            self,
                            p,
                            from_sector_id,
                            to_sector_id,
                            avoiding@,
                        ) implies direct@.len() + 1 <= p.len() by {}
                }
                return direct;
            }
            i += 1;
        }
        assert(!links@.contains(to_sector_id));

        // Keep away from ourselves below, so that no branch comes back here.
        let mut sub_avoiding = copy_ids(avoiding);
        sub_avoiding.push(from_sector_id);

        let mut best: Vec<SectorId> = Vec::new();
        let mut k: usize = 0;
        while k < n
            invariant
                self.wf(),
                n == links@.len(),
                0 <= k <= n,
                1 <= from_sector_id <= self.sector_count(),
                from_sector_id != to_sector_id,
                links@ == self.links_of(from_sector_id),
                !links@.contains(to_sector_id),
                sub_avoiding@ == avoiding@.push(from_sector_id),
                best@.len() > 0 ==> is_path(
                    self,
                    seq![from_sector_id] + best@,
                    from_sector_id,
                    to_sector_id,
                ),
                best@.len() > 0 ==> forall|i: int|
                    0 <= i < best@.len() - 1 ==> !avoiding@.contains(#[trigger] best@[i]),
                forall|j: int, p: Seq<SectorId>|
                    0 <= j < k && !sub_avoiding@.contains(links@[j])
                        && #[trigger] valid_avoiding_path(self, p, links@[j], to_sector_id, sub_avoiding@)
                        ==> best@.len() > 0 && best@.len() <= p.len(),
            decreases n - k,
        {
            let x = links[k];
            if !contains_id(&sub_avoiding, x) {
                proof {
                    broadcast use vstd::seq_lib::lemma_seq_contains_after_push;
                    broadcast use vstd::set::group_set_axioms;

                    lemma_free_sector_set_finite(self, sub_avoiding@);
                    lemma_free_sector_set_finite(self, avoiding@);
                    assert(free_sector_set(self, sub_avoiding@).subset_of(
                        free_sector_set(self, avoiding@),
                    ));
                    if !avoiding@.contains(from_sector_id) {
                        let shrunk = free_sector_set(self, avoiding@).remove(from_sector_id as int);
                        assert(free_sector_set(self, avoiding@).contains(from_sector_id as int));
                        assert(free_sector_set(self, sub_avoiding@).subset_of(shrunk));
                        vstd::set_lib::lemma_len_subset(
                            free_sector_set(self, sub_avoiding@),
                            shrunk,
                        );
                        assert(shrunk.len() == free_sector_set(self, avoiding@).len() - 1);
                    } else {
                        assert(free_sector_set(self, sub_avoiding@) =~= free_sector_set(
                            self,
                            avoiding@,
                        ));
                    }
                }
                let sub = self.find_shortest_path_avoiding(x, to_sector_id, &sub_avoiding);
                if sub.len() > 0 {
                    proof {
                        broadcast use vstd::seq_lib::lemma_seq_contains_after_push;

                        assert(self.links_of(from_sector_id)[k as int] == x);
                        assert(self.linked(from_sector_id, x));
                    }
                    if best.len() == 0 || sub.len() < best.len() - 1 {
                        let mut cand: Vec<SectorId> = Vec::new();
                        cand.push(x);
                        crate::ids::append_ids(&mut cand, &sub);
                        proof {
                            assert(cand@ =~= seq![x] + sub@);
                            lemma_path_prepend(
                                self,
                                seq![x] + sub@,
                                from_sector_id,
                                x,
                                to_sector_id,
                            );
                            assert(seq![from_sector_id] + cand@ =~= seq![from_sector_id] + (
                            seq![x] + sub@));
                            assert forall|i: int|
                                0 <= i < cand@.len() - 1 implies !avoiding@.contains(
                                #[trigger] cand@[i],
                            ) by {
                                broadcast use vstd::seq_lib::lemma_seq_contains_after_push;

                                if i == 0 {
                                    assert(cand@[0] == x);
                                    assert(!sub_avoiding@.contains(x));
                                } else {
                                    assert(cand@[i] == sub@[i - 1]);
                                    assert(!sub_avoiding@.contains(sub@[i - 1]));
                                }
                            }
                        }
                        best = cand;
                    }
                }
                proof {
                    broadcast use vstd::seq_lib::lemma_seq_contains_after_push;

                    assert forall|j: int, p: Seq<SectorId>|
                        0 <= j < k + 1 && !sub_avoiding@.contains(links@[j])
                            && #[trigger] valid_avoiding_path(
                            self,
                            p,
                            links@[j],
                            to_sector_id,
                            sub_avoiding@,
                        ) implies best@.len() > 0 && best@.len() <= p.len() by {
                        if j == k {
                            assert(sub@.len() > 0);
                            assert(sub@.len() + 1 <= p.len());
                        }
                    }
                }
            }
            k += 1;
        }
        proof {
            broadcast use vstd::seq_lib::lemma_seq_contains_after_push;

            if best@.len() == 0 {
                assert forall|p: Seq<SectorId>| !valid_avoiding_path(
                    self,
                    p,
                    from_sector_id,
                    to_sector_id,
                    avoiding@,
                ) by {
                    if valid_avoiding_path(self, p, from_sector_id, to_sector_id, avoiding@) {
                        let q = lemma_avoiding_path_no_revisit(
                            self,
                            p,
                            from_sector_id,
                            to_sector_id,
                            avoiding@,
                        );
                        let x = q[1];
                        assert(self.linked(q[0int], q[0int + 1]));
                        assert(self.links_of(from_sector_id).contains(x));
                        let j = choose|j: int|
                            0 <= j < links@.len() && links@[j] == x;
                        assert(q[q.len() - 1] == to_sector_id);
                        assert(q.len() >= 3);
                        assert(!avoiding@.contains(x));
                        assert(!sub_avoiding@.contains(x));
                        let q2 = q.subrange(1, q.len() as int);
                        assert(q2[0] == x);
                        assert(q2[q2.len() - 1] == to_sector_id);
                        assert forall|ii: int| 0 <= ii < q2.len() - 1 implies #[trigger] self.linked(
                            q2[ii],
                            q2[ii + 1],
                        ) by {
                            assert(self.linked(q[ii + 1], q[ii + 1 + 1]));
                        }
                        assert forall|ii: int| 1 <= ii < q2.len() - 1 implies !sub_avoiding@.contains(
                            #[trigger] q2[ii],
                        ) by {
                            assert(q2[ii] == q[ii + 1]);
                            assert(!avoiding@.contains(q[ii + 1]));
                            assert(q[ii + 1] != from_sector_id);
                        }
                        assert(valid_avoiding_path(self, q2, x, to_sector_id, sub_avoiding@));
                        assert(best@.len() > 0);
                    }
                }
            } else {
                assert forall|p: Seq<SectorId>|
                    best@.len() > 0 && #[trigger] valid_avoiding_path(
                        self,
                        p,
                        from_sector_id,
                        to_sector_id,
                        avoiding@,
                    ) implies best@.len() + 1 <= p.len() by {
                    let q = lemma_avoiding_path_no_revisit(
                        self,
                        p,
                        from_sector_id,
                        to_sector_id,
                        avoiding@,
                    );
                    let x = q[1];
                    assert(self.linked(q[0int], q[0int + 1]));
                    assert(self.links_of(from_sector_id).contains(x));
                    let j = choose|j: int| 0 <= j < links@.len() && links@[j] == x;
                    assert(q[q.len() - 1] == to_sector_id);
                    assert(q.len() >= 3);
                    assert(!avoiding@.contains(x));
                    assert(!sub_avoiding@.contains(x));
                    let q2 = q.subrange(1, q.len() as int);
                    assert(q2[0] == x);
                    assert(q2[q2.len() - 1] == to_sector_id);
                    assert forall|ii: int| 0 <= ii < q2.len() - 1 implies #[trigger] self.linked(
                        q2[ii],
                        q2[ii + 1],
                    ) by {
                        assert(self.linked(q[ii + 1], q[ii + 1 + 1]));
                    }
                    assert forall|ii: int| 1 <= ii < q2.len() - 1 implies !sub_avoiding@.contains(
                        #[trigger] q2[ii],
                    ) by {
                        assert(q2[ii] == q[ii + 1]);
                        assert(!avoiding@.contains(q[ii + 1]));
                        assert(q[ii + 1] != from_sector_id);
                    }
                    assert(valid_avoiding_path(self, q2, x, to_sector_id, sub_avoiding@));
                    assert(best@.len() <= q2.len());
                    assert(q2.len() == q.len() - 1);
                }
            }
        }
        best
    }

    /// Finds a shortest path from one sector to another; the result lists
    /// the sectors to traverse in order, destination included, starting
    /// sector excluded. Empty when no path exists.
    pub fn find_shortest_path(&self, from: SectorId, to: SectorId) -> (r: Vec<SectorId>)
        requires
            self.wf(),
        ensures
            from == to ==> r@.len() == 0,
            r@.len() > 0 ==> is_path(self, seq![from] + r@, from, to),
            forall|p: Seq<SectorId>|
                r@.len() > 0 && #[trigger] valid_avoiding_path(self, p, from, to, Seq::empty())
                    ==> r@.len() + 1 <= p.len(),
            from != to && r@.len() == 0 ==> forall|p: Seq<SectorId>|
                !valid_avoiding_path(self, p, from, to, Seq::empty()),
    {
        let avoiding: Vec<SectorId> = Vec::new();
        self.find_shortest_path_avoiding(from, to, &avoiding)
    }

    /// The number of jumps on a shortest path between the two sectors; zero
    /// when the sectors coincide or no path exists.
    pub fn find_shortest_path_len(&self, from: SectorId, to: SectorId) -> (r: usize)
        requires
            self.wf(),
        ensures
            from == to ==> r == 0,
            r > 0 ==> crate::reach::reaches_within(self, from, to, r as nat),
            forall|p: Seq<SectorId>|
                r > 0 && #[trigger] valid_avoiding_path(self, p, from, to, Seq::empty()) ==> r + 1
                    <= p.len(),
            from != to && r == 0 ==> forall|p: Seq<SectorId>|
                !valid_avoiding_path(self, p, from, to, Seq::empty()),
    {
        let path = self.find_shortest_path(from, to);
        proof {
            if path@.len() > 0 {
                let q = seq![from] + path@;
                assert(is_path(self, q, from, to) && q.len() <= path@.len() + 1);
            }
        }
        path.len()
    }
}

} // verus!
