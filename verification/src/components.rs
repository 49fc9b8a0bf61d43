use vstd::prelude::*;
use crate::galaxy::Galaxy;
use crate::reach::{marked_closed, reaches, lemma_reaches_self, lemma_reaches_step};
use crate::sector::SectorId;
use crate::tally::{count_false, lemma_count_false_update_true};

verus! {

broadcast use vstd::seq_lib::lemma_seq_contains_after_push;

impl Galaxy {
    /// Depth-first collection of every sector reachable from `seed` that the
    /// marking does not already claim. Marks what it collects; keeps the
    /// marking closed under links, so separate calls collect disjoint globs.
    pub(crate) fn collect_component(&self, seed: SectorId, assigned: &mut Vec<bool>) -> (comp: Vec<
        SectorId,
    >)
        requires
            self.wf(),
            self.in_range(seed),
            self.sector_count() < usize::MAX,
            old(assigned)@.len() == self.sector_count() + 1,
            !old(assigned)@[seed as int],
            marked_closed(self, old(assigned)@),
        ensures
            final(assigned)@.len() == old(assigned)@.len(),
            marked_closed(self, final(assigned)@),
            comp@.len() >= 1 && comp@[0] == seed,
            forall|i: int, j: int| 0 <= i < j < comp@.len() ==> comp@[i] != comp@[j],
            forall|i: int|
                0 <= i < comp@.len() ==> self.in_range(#[trigger] comp@[i])
                    && final(assigned)@[comp@[i] as int] && !old(assigned)@[comp@[i] as int],
            forall|s: int|
                0 <= s < final(assigned)@.len() ==> final(assigned)@[s] == (old(assigned)@[s]
                    || comp@.contains(s as SectorId)),
            forall|i: int| 0 <= i < comp@.len() ==> reaches(self, seed, #[trigger] comp@[i]),
    {
        let mut comp: Vec<SectorId> = Vec::new();
        let mut stack: Vec<SectorId> = Vec::new();
        assigned[seed] = true;
        comp.push(seed);
        stack.push(seed);
        proof {
            lemma_reaches_self(self, seed);
            assert(comp@ =~= seq![seed]);
            assert(comp@[0] == seed);
            assert(comp@.contains(seed));
            assert forall|s3: int| 0 <= s3 < assigned@.len() implies assigned@[s3] == (old(
                assigned,
            )@[s3] || comp@.contains(s3 as SectorId)) by {
                if s3 != seed as int {
                    if comp@.contains(s3 as SectorId) {
                        let ii = choose|ii: int|
                            0 <= ii < comp@.len() && comp@[ii] == s3 as SectorId;
                        assert(ii == 0);
                        assert(false);
                    }
                }
            }
        }
        while stack.len() > 0
            invariant
                self.wf(),
                self.in_range(seed),
                self.sector_count() < usize::MAX,
                assigned@.len() == self.sector_count() + 1,
                comp@.len() >= 1 && comp@[0] == seed,
                forall|i: int, j: int| 0 <= i < j < comp@.len() ==> comp@[i] != comp@[j],
                forall|i: int|
                    0 <= i < comp@.len() ==> self.in_range(#[trigger] comp@[i])
                        && assigned@[comp@[i] as int] && !old(assigned)@[comp@[i] as int],
                forall|s: int|
                    0 <= s < assigned@.len() ==> assigned@[s] == (old(assigned)@[s]
                        || comp@.contains(s as SectorId)),
                forall|i: int| 0 <= i < comp@.len() ==> reaches(self, seed, #[trigger] comp@[i]),
                forall|i: int| 0 <= i < stack@.len() ==> comp@.contains(#[trigger] stack@[i]),
                forall|i: int, j: int| 0 <= i < j < stack@.len() ==> stack@[i] != stack@[j],
                forall|s2: SectorId, j: int|
                    #![trigger assigned@[s2 as int], self.links_of(s2)[j]]
                    self.in_range(s2) && assigned@[s2 as int] && !stack@.contains(s2) && 0 <= j
                        < self.links_of(s2).len() ==> assigned@[self.links_of(s2)[j] as int],
            decreases 2 * count_false(assigned@) + stack@.len(),
        {
            let ghost cf0 = count_false(assigned@);
            let ghost st0 = stack@;
            let s = stack.pop().unwrap();
            proof {
                assert(st0[st0.len() - 1] == s);
                assert(st0 =~= stack@.push(s));
                assert(comp@.contains(s));
                let ci = choose|ci: int| 0 <= ci < comp@.len() && comp@[ci] == s;
                assert(self.in_range(comp@[ci]));
                assert(self.in_range(s));
                assert(!stack@.contains(s));
                assert forall|s2: SectorId, j2: int|
                    self.in_range(s2) && #[trigger] assigned@[s2 as int] && !stack@.contains(s2)
                        && s2 != s && 0 <= j2 < self.links_of(s2).len() implies assigned@[(
                    #[trigger] self.links_of(s2)[j2]) as int] by {
                    assert(!st0.contains(s2));
                }
            }
            let links = &self.sectors[s - 1].sector_links;
            let n = links.len();
            let mut j: usize = 0;
            while j < n
                invariant
                    self.wf(),
                    self.in_range(seed),
                    self.in_range(s),
                    self.sector_count() < usize::MAX,
                    n == links@.len(),
                    0 <= j <= n,
                    links@ == self.links_of(s),
                    assigned@.len() == self.sector_count() + 1,
                    comp@.contains(s),
                    !stack@.contains(s),
                    comp@.len() >= 1 && comp@[0] == seed,
                    forall|i: int, j2: int| 0 <= i < j2 < comp@.len() ==> comp@[i] != comp@[j2],
                    forall|i: int|
                        0 <= i < comp@.len() ==> self.in_range(#[trigger] comp@[i])
                            && assigned@[comp@[i] as int] && !old(assigned)@[comp@[i] as int],
                    forall|s3: int|
                        0 <= s3 < assigned@.len() ==> assigned@[s3] == (old(assigned)@[s3]
                            || comp@.contains(s3 as SectorId)),
                    forall|i: int| 0 <= i < comp@.len() ==> reaches(self, seed, #[trigger] comp@[i]),
                    forall|i: int| 0 <= i < stack@.len() ==> comp@.contains(#[trigger] stack@[i]),
                    forall|i: int, j2: int| 0 <= i < j2 < stack@.len() ==> stack@[i] != stack@[j2],
                    forall|s2: SectorId, j2: int|
                        #![trigger assigned@[s2 as int], self.links_of(s2)[j2]]
                        self.in_range(s2) && assigned@[s2 as int] && !stack@.contains(s2) && s2 != s
                            && 0 <= j2 < self.links_of(s2).len() ==> assigned@[self.links_of(
                            s2,
                        )[j2] as int],
                    forall|j2: int|
                        0 <= j2 < j ==> assigned@[#[trigger] self.links_of(s)[j2] as int],
                    2 * count_false(assigned@) + stack@.len() <= 2 * cf0 + st0.len() - 1,
                decreases n - j,
            {
                let t = links[j];
                proof {
                    assert(self.links_of(s)[j as int] == t);
                    assert(self.spec_sectors()[s - 1].wf(self.sector_count()));
                    assert(self.in_range(t));
                }
                if !assigned[t] {
                    proof {
                        lemma_count_false_update_true(assigned@, t as int);
                        assert(self.links_of(s).contains(t));
                        assert(self.linked(s, t));
                        let ci = choose|ci: int| 0 <= ci < comp@.len() && comp@[ci] == s;
                        assert(reaches(self, seed, comp@[ci]));
                        assert(reaches(self, seed, s));
                        lemma_reaches_step(self, seed, s, t);
                    }
                    let ghost assigned0 = assigned@;
                    let ghost comp0 = comp@;
                    assigned[t] = true;
                    comp.push(t);
                    stack.push(t);
                    proof {
                        assert(assigned@ =~= assigned0.update(t as int, true));
                        assert(comp@ =~= comp0.push(t));
                        assert(comp@.contains(t));
                        assert forall|s3: int|
                            0 <= s3 < assigned@.len() implies assigned@[s3] == (old(
                            assigned,
                        )@[s3] || comp@.contains(s3 as SectorId)) by {
                            if s3 != t as int {
                                assert(assigned@[s3] == assigned0[s3]);
                                assert(s3 as SectorId != t);
                            }
                        }
                    }
                }
                j += 1;
            }
        }
        comp
    }

    /// Segregates the sector arena into disjoint globs. The glob holding
    /// `root_sector_id` comes first and starts with it; every glob starts
    /// with the sector it was discovered from and reaches all its members
    /// from there, and every sector appears in exactly one glob.
    pub fn create_disjoint_sector_sets(&self, root_sector_id: SectorId) -> (comps: Vec<
        Vec<SectorId>,
    >)
        requires
            self.wf(),
            self.in_range(root_sector_id),
            self.sector_count() < usize::MAX,
        ensures
            comps@.len() >= 1,
            comps@[0]@.len() >= 1 && comps@[0]@[0] == root_sector_id,
            forall|c: int|
                0 <= c < comps@.len() ==> (#[trigger] comps@[c])@.len() >= 1,
            forall|c: int, i: int|
                0 <= c < comps@.len() && 0 <= i < comps@[c]@.len() ==> self.in_range(
                    #[trigger] comps@[c]@[i],
                ) && reaches(self, comps@[c]@[0], comps@[c]@[i]),
            forall|c: int, i: int, c2: int, i2: int|
                0 <= c < comps@.len() && 0 <= i < comps@[c]@.len() && 0 <= c2 < comps@.len() && 0
                    <= i2 < comps@[c2]@.len() && !(c == c2 && i == i2) ==> #[trigger] comps@[c]@[i]
                    != #[trigger] comps@[c2]@[i2],
            forall|s: SectorId|
                self.in_range(s) ==> exists|c: int, i: int|
                    0 <= c < comps@.len() && 0 <= i < comps@[c]@.len() && #[trigger] comps@[c]@[i]
                        == s,
    {
        broadcast use vstd::seq_lib::lemma_seq_contains_after_push;

        let count = self.sectors.len();
        let mut assigned: Vec<bool> = Vec::new();
        let mut z: usize = 0;
        while z < count + 1
            invariant
                count < usize::MAX,
                0 <= z <= count + 1,
                assigned@.len() == z,
                forall|i: int| 0 <= i < z ==> !assigned@[i],
            decreases count + 1 - z,
        {
            assigned.push(false);
            z += 1;
        }
        let mut comps: Vec<Vec<SectorId>> = Vec::new();
        let root_comp = self.collect_component(root_sector_id, &mut assigned);
        comps.push(root_comp);
        let mut s: usize = 1;
        while s <= count
            invariant
                self.wf(),
                count == self.sector_count(),
                count < usize::MAX,
                1 <= s <= count + 1,
                assigned@.len() == count + 1,
                marked_closed(self, assigned@),
                comps@.len() >= 1,
                comps@[0]@.len() >= 1 && comps@[0]@[0] == root_sector_id,
                forall|c: int| 0 <= c < comps@.len() ==> (#[trigger] comps@[c])@.len() >= 1,
                forall|c: int, i: int|
                    0 <= c < comps@.len() && 0 <= i < comps@[c]@.len() ==> self.in_range(
                        #[trigger] comps@[c]@[i],
                    ) && reaches(self, comps@[c]@[0], comps@[c]@[i]) && assigned@[comps@[c]@[i] as int],
                forall|c: int, i: int, c2: int, i2: int|
                    0 <= c < comps@.len() && 0 <= i < comps@[c]@.len() && 0 <= c2 < comps@.len()
                        && 0 <= i2 < comps@[c2]@.len() && !(c == c2 && i == i2)
                        ==> #[trigger] comps@[c]@[i] != #[trigger] comps@[c2]@[i2],
                forall|x: SectorId|
                    self.in_range(x) && assigned@[x as int] ==> exists|c: int, i: int|
                        0 <= c < comps@.len() && 0 <= i < comps@[c]@.len()
                            && #[trigger] comps@[c]@[i] == x,
                forall|x: int| 1 <= x < s ==> assigned@[x],
            decreases count + 1 - s,
        {
            if !assigned[s] {
                let ghost comps0 = comps@;
                let comp = self.collect_component(s, &mut assigned);
                comps.push(comp);
                proof {
                    assert forall|c: int, i: int|
                        0 <= c < comps@.len() && 0 <= i < comps@[c]@.len() implies self.in_range(
                        #[trigger] comps@[c]@[i],
                    ) && reaches(self, comps@[c]@[0], comps@[c]@[i]) && assigned@[comps@[c]@[i] as int] by {
                        if c < comps0.len() {
                            assert(comps@[c] == comps0[c]);
                        } else {
                            assert(comps@[c] == comp);
                        }
                    }
                    assert forall|c: int, i: int, c2: int, i2: int|
                        0 <= c < comps@.len() && 0 <= i < comps@[c]@.len() && 0 <= c2 < comps@.len()
                            && 0 <= i2 < comps@[c2]@.len() && !(c == c2 && i == i2) implies (
                    #[trigger] comps@[c]@[i]) != (#[trigger] comps@[c2]@[i2]) by {
                        if c < comps0.len() && c2 < comps0.len() {
                            assert(comps@[c] == comps0[c] && comps@[c2] == comps0[c2]);
                        } else if c < comps0.len() && c2 == comps0.len() {
                            assert(comps@[c] == comps0[c] && comps@[c2] == comp);
                        } else if c == comps0.len() && c2 < comps0.len() {
                            assert(comps@[c] == comp && comps@[c2] == comps0[c2]);
                        } else {
                            assert(comps@[c] == comp && comps@[c2] == comp);
                        }
                    }
                    assert forall|x: SectorId|
                        self.in_range(x) && assigned@[x as int] implies exists|c: int, i: int|
                        0 <= c < comps@.len() && 0 <= i < comps@[c]@.len() && #[trigger] comps@[c]@[i]
                            == x by {
                        if comp@.contains(x) {
                            let i = choose|i: int| 0 <= i < comp@.len() && comp@[i] == x;
                            assert(comps@[comps0.len() as int]@[i] == x);
                        } else {
                            let (c, i) = choose|c: int, i: int|
                                0 <= c < comps0.len() && 0 <= i < comps0[c]@.len()
                                    && #[trigger] comps0[c]@[i] == x;
                            assert(comps@[c]@[i] == x);
                        }
                    }
                }
            }
            s += 1;
        }
        comps
    }
}

} // verus!
