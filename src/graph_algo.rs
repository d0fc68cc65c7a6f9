//! Graph traversal over a molecule.

use vstd::prelude::*;
use crate::molecule::{Molecule, connects, incident, lemma_incident, touches};

verus! {

/// Atoms `x` and `y` are joined by some bond.
pub open spec fn adjacent(m: Molecule, x: int, y: int) -> bool {
    exists|b: int| 0 <= b < m.bonds@.len() && connects(#[trigger] m.bonds@[b], x, y)
}

/// The end of bond `b` of `m` that is not atom `x`.
pub open spec fn far_end(m: Molecule, b: int, x: int) -> int {
    if m.bonds@[b].source == x {
        m.bonds@[b].dest as int
    } else {
        m.bonds@[b].source as int
    }
}

/// The number of atoms not visited yet.
pub open spec fn unvisited(v: Seq<bool>) -> nat
    decreases v.len(),
{
    if v.len() == 0 {
        0
    } else {
        unvisited(v.drop_last()) + if v.last() {
            0nat
        } else {
            1nat
        }
    }
}

proof fn lemma_unvisited_mark(v: Seq<bool>, i: int)
    requires
        0 <= i < v.len(),
        !v[i],
    ensures
        unvisited(v.update(i, true)) + 1 == unvisited(v),
    decreases v.len(),
{
    let w = v.update(i, true);
    if i == v.len() - 1 {
        assert(w.drop_last() =~= v.drop_last());
    } else {
        lemma_unvisited_mark(v.drop_last(), i);
        assert(w.drop_last() =~= v.drop_last().update(i, true));
    }
}

impl Molecule {
    /// Pushes onto `stack` every atom bonded to `x` that is not visited.
    fn push_neighbours(&self, x: usize, visited: &Vec<bool>, stack: &mut Vec<usize>)
        requires
            self.wf(),
            x < self.atoms@.len(),
            visited@.len() == self.atoms@.len(),
            forall|j: int| 0 <= j < old(stack)@.len() ==> (#[trigger] old(stack)@[j]) < self.atoms@.len(),
        ensures
            final(stack)@.len() >= old(stack)@.len(),
            forall|j: int| 0 <= j < old(stack)@.len() ==> #[trigger] final(stack)@[j] == old(stack)@[j],
            forall|j: int| 0 <= j < final(stack)@.len() ==> (#[trigger] final(stack)@[j]) < self.atoms@.len(),
            forall|j: int|
                old(stack)@.len() <= j < final(stack)@.len() ==> adjacent(*self, x as int, #[trigger] final(stack)@[j] as int),
            forall|b: int|
                0 <= b < self.bonds@.len() && touches(#[trigger] self.bonds@[b], x as int) ==> visited@[far_end(*self, b, x as int)]
                    || final(stack)@.contains(far_end(*self, b, x as int) as usize),
    {
        let list = self.incident_bonds(x);
        let ghost l = list@;
        let ghost s0 = stack@;
        proof {
            assert(self.bonds@.len() == self.bonds.len());
            lemma_incident(self.bonds@, x as int);
        }
        let mut k: usize = 0;
        while k < list.len()
            invariant
                self.wf(),
                x < self.atoms@.len(),
                visited@.len() == self.atoms@.len(),
                l == list@,
                l == incident(self.bonds@, x as int),
                forall|j: int| 0 <= j < l.len() ==> (l[j] as int) < self.bonds@.len() && touches(self.bonds@[l[j] as int], x as int),
                k <= l.len(),
                s0.len() <= stack@.len(),
                forall|j: int| 0 <= j < s0.len() ==> #[trigger] stack@[j] == s0[j],
                forall|j: int| 0 <= j < stack@.len() ==> (#[trigger] stack@[j]) < self.atoms@.len(),
                forall|j: int| s0.len() <= j < stack@.len() ==> adjacent(*self, x as int, #[trigger] stack@[j] as int),
                forall|j: int|
                    0 <= j < k ==> visited@[far_end(*self, #[trigger] l[j] as int, x as int)] || stack@.contains(
                        far_end(*self, l[j] as int, x as int) as usize,
                    ),
            decreases l.len() - k,
        {
            let ghost sb = stack@;
            let b = list[k];
            let bond = &self.bonds[b];
            let y = if bond.source == x {
                bond.dest
            } else {
                bond.source
            };
            proof {
                assert(self.bonds@[b as int] == *bond);
                assert(connects(self.bonds@[b as int], x as int, y as int));
            }
            if !visited[y] {
                stack.push(y);
                proof {
                    assert(stack@[stack@.len() - 1] == y);
                    assert(adjacent(*self, x as int, y as int));
                }
            }
            proof {
                assert forall|j: int|
                    0 <= j < k + 1 implies visited@[far_end(*self, #[trigger] l[j] as int, x as int)] || stack@.contains(
                        far_end(*self, l[j] as int, x as int) as usize,
                    ) by {
                    if j == k {
                        if !visited@[y as int] {
                            assert(stack@[stack@.len() - 1] == y);
                        }
                    } else {
                        let z = far_end(*self, l[j] as int, x as int) as usize;
                        if !visited@[z as int] {
                            assert(sb.contains(z));
                            let i = choose|i: int| 0 <= i < sb.len() && sb[i] == z;
                            assert(stack@[i] == z);
                        }
                    }
                }
            }
            k += 1;
        }
        proof {
            assert forall|b: int|
                0 <= b < self.bonds@.len() && touches(#[trigger] self.bonds@[b], x as int) implies visited@[far_end(*self, b, x as int)]
                    || stack@.contains(far_end(*self, b, x as int) as usize) by {
                assert(l.contains(b as usize));
                let j = choose|j: int| 0 <= j < l.len() && l[j] == b as usize;
                assert(l[j] as int == b);
            }
        }
    }

    /// The atoms reachable from `start_atom`, each once, in depth-first
    /// order: the first is `start_atom`, every later one is bonded to one
    /// listed before it, and every atom bonded to a listed atom is listed.
    #[verifier::rlimit(50)]
    pub fn dfs(&self, start_atom: usize) -> (r: Vec<usize>)
        requires
            self.wf(),
            start_atom < self.atoms@.len(),
        ensures
            r@.len() >= 1,
            r@[0] == start_atom,
            forall|i: int| 0 <= i < r@.len() ==> (#[trigger] r@[i]) < self.atoms@.len(),
            forall|i: int, j: int| 0 <= i < j < r@.len() ==> r@[i] != r@[j],
            forall|k: int|
                0 < k < r@.len() ==> exists|i: int| 0 <= i < k && adjacent(*self, r@[i] as int, #[trigger] r@[k] as int),
            forall|i: int, b: int|
                0 <= i < r@.len() && 0 <= b < self.bonds@.len() && touches(#[trigger] self.bonds@[b], r@[i] as int)
                    ==> r@.contains(far_end(*self, b, #[trigger] r@[i] as int) as usize),
    {
        let n = self.atoms.len();
        let mut visited: Vec<bool> = Vec::new();
        let mut i: usize = 0;
        while i < n
            invariant
                i <= n,
                visited@.len() == i,
                forall|k: int| 0 <= k < i ==> !(#[trigger] visited@[k]),
            decreases n - i,
        {
            visited.push(false);
            i += 1;
        }
        let mut order: Vec<usize> = Vec::new();
        let mut stack: Vec<usize> = Vec::new();
        stack.push(start_atom);
        while stack.len() > 0
            invariant
                self.wf(),
                n == self.atoms@.len(),
                start_atom < n,
                visited@.len() == n,
                forall|a: int| 0 <= a < n ==> (#[trigger] visited@[a] <==> order@.contains(a as usize)),
                forall|k: int| 0 <= k < order@.len() ==> (#[trigger] order@[k]) < n,
                forall|x: int, y: int| 0 <= x < y < order@.len() ==> order@[x] != order@[y],
                order@.len() > 0 ==> order@[0] == start_atom,
                order@.len() == 0 ==> stack@ == seq![start_atom],
                forall|k: int| 0 <= k < stack@.len() ==> (#[trigger] stack@[k]) < n,
                forall|k: int|
                    0 < k < order@.len() ==> exists|i: int| 0 <= i < k && adjacent(*self, order@[i] as int, #[trigger] order@[k] as int),
                forall|k: int|
                    0 <= k < stack@.len() && order@.len() > 0 ==> exists|i: int|
                        0 <= i < order@.len() && adjacent(*self, order@[i] as int, #[trigger] stack@[k] as int),
                forall|i: int, b: int|
                    0 <= i < order@.len() && 0 <= b < self.bonds@.len() && touches(#[trigger] self.bonds@[b], order@[i] as int)
                        ==> visited@[far_end(*self, b, #[trigger] order@[i] as int)] || stack@.contains(
                        far_end(*self, b, order@[i] as int) as usize,
                    ),
            decreases unvisited(visited@), stack@.len(),
        {
            let ghost st0 = stack@;
            let x = stack.pop().unwrap();
            proof {
                assert(st0 == stack@.push(x));
                assert(st0[st0.len() - 1] == x);
            }
            if visited[x] {
                proof {
                    assert forall|i: int, b: int|
                        0 <= i < order@.len() && 0 <= b < self.bonds@.len() && touches(#[trigger] self.bonds@[b], order@[i] as int)
                            implies visited@[far_end(*self, b, #[trigger] order@[i] as int)] || stack@.contains(
                            far_end(*self, b, order@[i] as int) as usize,
                        ) by {
                        let z = far_end(*self, b, order@[i] as int) as usize;
                        if !visited@[z as int] {
                            let j = choose|j: int| 0 <= j < st0.len() && st0[j] == z;
                            assert(j < stack@.len());
                            assert(stack@[j] == z);
                        }
                    }
                    assert forall|k: int|
                        0 <= k < stack@.len() && order@.len() > 0 implies exists|i: int|
                            0 <= i < order@.len() && adjacent(*self, order@[i] as int, #[trigger] stack@[k] as int) by {
                        assert(stack@[k] == st0[k]);
                    }
                }
                continue;
            }
            let ghost v0 = visited@;
            let ghost o0 = order@;
            let ghost s1 = stack@;
            visited.set(x, true);
            order.push(x);
            proof {
                lemma_unvisited_mark(v0, x as int);
                assert(!o0.contains(x));
            }
            self.push_neighbours(x, &visited, &mut stack);
            proof {
                let o1 = order@;
                assert forall|a: int| 0 <= a < n implies (#[trigger] visited@[a] <==> o1.contains(a as usize)) by {
                    if a == x {
                        assert(o1[o1.len() - 1] == x);
                    } else {
                        assert(v0[a] <==> o0.contains(a as usize));
                        if o0.contains(a as usize) {
                            let j = choose|j: int| 0 <= j < o0.len() && o0[j] == a as usize;
                            assert(o1[j] == a as usize);
                        }
                        if o1.contains(a as usize) {
                            let j = choose|j: int| 0 <= j < o1.len() && o1[j] == a as usize;
                            if j < o0.len() {
                                assert(o0[j] == a as usize);
                            }
                        }
                    }
                }
                assert forall|j: int| 0 <= j < o1.len() implies (#[trigger] o1[j]) < n by {
                    if j < o0.len() {
                        assert(o1[j] == o0[j]);
                    }
                }
                assert forall|a: int, c: int| 0 <= a < c < o1.len() implies o1[a] != o1[c] by {
                    if c == o0.len() {
                        assert(o1[a] == o0[a]);
                        assert(o0.contains(o0[a]));
                    } else {
                        assert(o1[a] == o0[a] && o1[c] == o0[c]);
                    }
                }
                if o0.len() == 0 {
                    assert(st0 == seq![start_atom]);
                    assert(o1[0] == start_atom);
                } else {
                    assert(o1[0] == o0[0]);
                }
                assert forall|kk: int| 0 < kk < o1.len() implies exists|i: int|
                    0 <= i < kk && adjacent(*self, o1[i] as int, #[trigger] o1[kk] as int) by {
                    if kk < o0.len() {
                        assert(o1[kk] == o0[kk]);
                        let i = choose|i: int| 0 <= i < kk && adjacent(*self, o0[i] as int, #[trigger] o0[kk] as int);
                        assert(o1[i] == o0[i]);
                    } else {
                        let top = st0.len() - 1;
                        assert(st0[top] == x);
                        let i = choose|i: int| 0 <= i < o0.len() && adjacent(*self, o0[i] as int, #[trigger] st0[top] as int);
                        assert(o1[i] == o0[i]);
                    }
                }
                assert forall|kk: int| 0 <= kk < stack@.len() && o1.len() > 0 implies exists|i: int|
                    0 <= i < o1.len() && adjacent(*self, o1[i] as int, #[trigger] stack@[kk] as int) by {
                    if kk < s1.len() {
                        assert(stack@[kk] == s1[kk]);
                        assert(s1[kk] == st0[kk]);
                        let i = choose|i: int| 0 <= i < o0.len() && adjacent(*self, o0[i] as int, #[trigger] st0[kk] as int);
                        assert(o1[i] == o0[i]);
                    } else {
                        assert(o1[o0.len() as int] == x);
                    }
                }
                assert forall|i: int, b: int|
                    0 <= i < o1.len() && 0 <= b < self.bonds@.len() && touches(#[trigger] self.bonds@[b], o1[i] as int)
                        implies visited@[far_end(*self, b, #[trigger] o1[i] as int)] || stack@.contains(
                        far_end(*self, b, o1[i] as int) as usize,
                    ) by {
                    let z = far_end(*self, b, o1[i] as int) as usize;
                    if i < o0.len() {
                        assert(o1[i] == o0[i]);
                        if !visited@[z as int] {
                            assert(!v0[z as int]);
                            assert(st0.contains(z));
                            let j = choose|j: int| 0 <= j < st0.len() && st0[j] == z;
                            if j == st0.len() - 1 {
                                assert(z == x);
                            } else {
                                assert(s1[j] == z);
                                assert(stack@[j] == z);
                            }
                        }
                    } else {
                        assert(o1[i] == x);
                    }
                }
            }
        }
        proof {
            assert forall|i: int, b: int|
                0 <= i < order@.len() && 0 <= b < self.bonds@.len() && touches(#[trigger] self.bonds@[b], order@[i] as int)
                    implies order@.contains(far_end(*self, b, #[trigger] order@[i] as int) as usize) by {
                let z = far_end(*self, b, order@[i] as int);
                assert(visited@[z] || stack@.contains(z as usize));
                assert(0 <= z < n);
            }
        }
        order
    }
}

} // verus!
