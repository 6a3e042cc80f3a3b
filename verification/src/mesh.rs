//! The working set of triangles: a list in the order of insertion, from
//! which a triangle is taken out again by naming its exact value.

use crate::math::{triangles_are_equal, Triangle};
use vstd::prelude::*;

verus! {

/// The list without the first triangle equal to `t`; the list itself where
/// none is.
pub open spec fn without_first(triangles: Seq<Triangle>, t: Triangle) -> Seq<Triangle>
    decreases triangles.len(),
{
    if triangles.len() == 0 {
        triangles
    } else if triangles[0] == t {
        triangles.drop_first()
    } else {
        seq![triangles[0]] + without_first(triangles.drop_first(), t)
    }
}

/// The list after the triangles of `gone` have been taken out of it one
/// after the other, each time the first that is equal.
pub open spec fn without_each(triangles: Seq<Triangle>, gone: Seq<Triangle>) -> Seq<Triangle>
    decreases gone.len(),
{
    if gone.len() == 0 {
        triangles
    } else {
        without_each(without_first(triangles, gone[0]), gone.drop_first())
    }
}

/// Each triangle of `gone`, taken in turn, is still in the list when the
/// ones before it have been taken out.
pub open spec fn each_is_found(triangles: Seq<Triangle>, gone: Seq<Triangle>) -> bool
    decreases gone.len(),
{
    if gone.len() == 0 {
        true
    } else {
        triangles.contains(gone[0]) && each_is_found(
            without_first(triangles, gone[0]),
            gone.drop_first(),
        )
    }
}

/// A list of triangles in the order in which they were added.
#[derive(Debug, Clone)]
pub struct Mesh {
    triangles: Vec<Triangle>,
}

impl View for Mesh {
    type V = Seq<Triangle>;

    closed spec fn view(&self) -> Seq<Triangle> {
        self.triangles@
    }
}

impl Default for Mesh {
    fn default() -> (mesh: Mesh)
        ensures
            mesh@ == Seq::<Triangle>::empty(),
    {
        Mesh { triangles: Vec::new() }
    }
}

impl Mesh {
    /// Appends `triangle`. Whether the mesh holds an equal one already is
    /// not looked at.
    pub fn add_triangle_to_mesh(&mut self, triangle: Triangle)
        ensures
            final(self)@ == old(self)@.push(triangle),
    {
        self.triangles.push(triangle);
    }

    /// The triangles in the order in which they are stored.
    pub fn iter_triangles_in_mesh(&self) -> (triangles: &Vec<Triangle>)
        ensures
            triangles@ == self@,
    {
        &self.triangles
    }

    /// Takes out the first triangle that is equal to `triangle`, vertex by
    /// vertex and in the same order, and tells whether there was one. A mesh
    /// that holds none is left as it is.
    pub fn remove_triangle_from_mesh(&mut self, triangle: Triangle) -> (found: bool)
        ensures
            found == old(self)@.contains(triangle),
            final(self)@ == without_first(old(self)@, triangle),
    {
        let mut idx: usize = 0;
        while idx < self.triangles.len()
            invariant
                self.triangles@ == old(self)@,
                idx <= self.triangles@.len(),
                forall|j: int| 0 <= j < idx ==> self.triangles@[j] != triangle,
            decreases self.triangles.len() - idx,
        {
            if triangles_are_equal(self.triangles[idx], triangle) {
                proof {
                    lemma_without_first_at(self.triangles@, triangle, idx as int);
                }
                self.triangles.remove(idx);
                return true;
            }
            idx += 1;
        }
        proof {
            lemma_without_first_absent(self.triangles@, triangle);
        }
        false
    }

    /// Takes out each triangle of `triangles` in turn, and tells whether
    /// every one of them was found.
    pub fn remove_each(&mut self, triangles: &[Triangle]) -> (all_found: bool)
        ensures
            all_found == each_is_found(old(self)@, triangles@),
            final(self)@ == without_each(old(self)@, triangles@),
    {
        let mut all_found = true;
        let count = triangles.len();
        assert(triangles@.skip(0) == triangles@);
        for idx in 0..count
            invariant
                count == triangles@.len(),
                without_each(self@, triangles@.skip(idx as int)) == without_each(
                    old(self)@,
                    triangles@,
                ),
                (all_found && each_is_found(self@, triangles@.skip(idx as int))) == each_is_found(
                    old(self)@,
                    triangles@,
                ),
        {
            proof {
                assert(triangles@.skip(idx as int).drop_first() == triangles@.skip(idx + 1));
            }
            let found = self.remove_triangle_from_mesh(triangles[idx]);
            if !found {
                all_found = false;
            }
        }
        all_found
    }
}

/// Where `t` stands at position `i` and nowhere before it, taking out the
/// first `t` takes out the triangle at `i`.
pub proof fn lemma_without_first_at(triangles: Seq<Triangle>, t: Triangle, i: int)
    requires
        0 <= i < triangles.len(),
        triangles[i] == t,
        forall|j: int| 0 <= j < i ==> triangles[j] != t,
    ensures
        without_first(triangles, t) == triangles.remove(i),
    decreases i,
{
    if i == 0 {
        assert(triangles.drop_first() == triangles.remove(0));
    } else {
        let rest = triangles.drop_first();
        assert forall|j: int| 0 <= j < i - 1 implies rest[j] != t by {
            assert(rest[j] == triangles[j + 1]);
        }
        lemma_without_first_at(rest, t, i - 1);
        assert(seq![triangles[0]] + rest.remove(i - 1) == triangles.remove(i));
    }
}

/// Taking a triangle out of a list that does not hold it changes nothing.
pub proof fn lemma_without_first_absent(triangles: Seq<Triangle>, t: Triangle)
    requires
        !triangles.contains(t),
    ensures
        without_first(triangles, t) == triangles,
    decreases triangles.len(),
{
    if triangles.len() > 0 {
        let rest = triangles.drop_first();
        assert(triangles[0] != t);
        assert forall|j: int| 0 <= j < rest.len() implies rest[j] != t by {
            assert(rest[j] == triangles[j + 1]);
        }
        lemma_without_first_absent(rest, t);
        assert(seq![triangles[0]] + rest == triangles);
    }
}

/// Taking a triangle out adds none: what is left was in the list before.
pub proof fn lemma_without_first_adds_nothing(triangles: Seq<Triangle>, gone: Triangle, t: Triangle)
    requires
        without_first(triangles, gone).contains(t),
    ensures
        triangles.contains(t),
    decreases triangles.len(),
{
    if triangles.len() > 0 {
        let rest = triangles.drop_first();
        let left = without_first(triangles, gone);
        let at = choose|at: int| 0 <= at < left.len() && left[at] == t;
        if triangles[0] == gone {
            assert(triangles[at + 1] == t);
        } else if at == 0 {
            assert(triangles[0] == t);
        } else {
            assert(without_first(rest, gone)[at - 1] == t);
            lemma_without_first_adds_nothing(rest, gone, t);
            let before = choose|before: int| 0 <= before < rest.len() && rest[before] == t;
            assert(triangles[before + 1] == t);
        }
    }
}

/// Taking triangles out adds none: what is left was in the list before.
pub proof fn lemma_without_each_adds_nothing(
    triangles: Seq<Triangle>,
    gone: Seq<Triangle>,
    t: Triangle,
)
    requires
        without_each(triangles, gone).contains(t),
    ensures
        triangles.contains(t),
    decreases gone.len(),
{
    if gone.len() > 0 {
        lemma_without_each_adds_nothing(without_first(triangles, gone[0]), gone.drop_first(), t);
        lemma_without_first_adds_nothing(triangles, gone[0], t);
    }
}

/// A triangle at the head of the list that is not among those to take out
/// stays at the head, and the rest of the list is treated as it would be
/// alone.
proof fn lemma_head_stays(head: Triangle, rest: Seq<Triangle>, gone: Seq<Triangle>)
    requires
        !gone.contains(head),
    ensures
        without_each(seq![head] + rest, gone) == seq![head] + without_each(rest, gone),
        each_is_found(seq![head] + rest, gone) == each_is_found(rest, gone),
    decreases gone.len(),
{
    if gone.len() > 0 {
        let whole = seq![head] + rest;
        let next = gone[0];
        assert(gone.contains(next));
        assert(whole.drop_first() == rest);
        assert(whole.contains(next) == rest.contains(next)) by {
            if rest.contains(next) {
                let at = choose|at: int| 0 <= at < rest.len() && rest[at] == next;
                assert(whole[at + 1] == next);
            }
            if whole.contains(next) {
                let at = choose|at: int| 0 <= at < whole.len() && whole[at] == next;
                assert(rest[at - 1] == next);
            }
        }
        assert forall|j: int| 0 <= j < gone.drop_first().len() implies gone.drop_first()[j]
            != head by {
            assert(gone.contains(gone[j + 1]));
        }
        lemma_head_stays(head, without_first(rest, next), gone.drop_first());
    }
}

/// Where the triangles to take out are those of the list that meet a
/// condition, in the order of the list, every one of them is found, and
/// what is left are the triangles that do not meet the condition, in their
/// old order.
pub proof fn lemma_without_each_chosen(
    triangles: Seq<Triangle>,
    chosen: spec_fn(Triangle) -> bool,
    others: spec_fn(Triangle) -> bool,
)
    requires
        forall|t: Triangle| #[trigger] others(t) == !chosen(t),
    ensures
        each_is_found(triangles, triangles.filter(chosen)),
        without_each(triangles, triangles.filter(chosen)) == triangles.filter(others),
    decreases triangles.len(),
{
    if triangles.len() == 0 {
        reveal(Seq::filter);
    } else {
        let head = triangles[0];
        let rest = triangles.drop_first();
        assert(seq![head] + rest == triangles);
        rest.lemma_filter_prepend(head, chosen);
        rest.lemma_filter_prepend(head, others);
        lemma_without_each_chosen(rest, chosen, others);
        let gone = triangles.filter(chosen);
        if chosen(head) {
            assert(gone.drop_first() == rest.filter(chosen));
            assert(without_first(triangles, gone[0]) == rest);
            assert(triangles.contains(gone[0]));
            assert(triangles.filter(others) == rest.filter(others));
        } else {
            assert(gone == rest.filter(chosen));
            assert(!gone.contains(head)) by {
                if gone.contains(head) {
                    let at = choose|at: int| 0 <= at < gone.len() && gone[at] == head;
                    rest.lemma_filter_pred(chosen, at);
                }
            }
            lemma_head_stays(head, rest, gone);
            assert(triangles.filter(others) == seq![head] + rest.filter(others));
        }
    }
}

} // verus!
