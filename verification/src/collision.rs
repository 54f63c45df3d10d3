//! Contact gathering and contact resolution.
//!
//! Each fixed step, every overlapping dynamic-dynamic and dynamic-static
//! pair is gathered into a contact list, the frame is classified into a
//! single `CollisionEffect`, and the contacts are resolved largest
//! penetration first: positions are separated and momentum exchanged.

use vstd::prelude::*;
use crate::fx::{sat, tdiv, fmul, smul_fx, lemma_tdiv_exact, SCALE, FX_MAX};
use crate::geom::{Sphere, ss_overlap, ss_disp, sp_touching, sp_disp, sp_dist, sb_touching,
    disp_sphere_sphere, disp_sphere_plane, touching_sphere_box};
use crate::physics::Physics;
use crate::shapes::{Ball, Static, Goal, GoalM, ball_wf, static_wf, goal_wf};
use crate::vec3::{Vec3, V3, v3_mag2, v3_in_range, v3_to_vec, v3_neg, v3_add, v3_sub, v3_half,
    v3_scale_fx, v3_muldiv};

verus! {

/// A contact between body `a` and body `b`, with the minimum translation
/// vector that separates them.  Recomputed every frame, never persisted.
#[derive(Clone, Copy, PartialEq, Eq, Structural, Debug)]
pub struct Contact {
    pub a: usize,
    pub b: usize,
    pub mtv: Vec3,
}

/// The single authoritative summary of one frame's contact gathering,
/// in priority order `Score > WallCollision > BallCollision > NoEffect`.
#[derive(Clone, Copy, PartialEq, Eq, Structural, Debug)]
pub enum CollisionEffect {
    Score,
    WallCollision,
    BallCollision,
    NoEffect,
}

/// The sort key of a contact: the squared magnitude of its minimum
/// translation vector (its penetration severity).
pub open spec fn contact_key(c: Contact) -> int {
    v3_mag2(c.mtv@)
}

/// Sorted by descending penetration severity.
pub open spec fn sorted_desc(s: Seq<Contact>) -> bool {
    forall|i: int, j: int| 0 <= i <= j < s.len() ==> contact_key(s[i]) >= contact_key(s[j])
}

/// Insert a contact into a descending-sorted sequence, after every element
/// with an equal or larger key.
pub open spec fn insert_desc(s: Seq<Contact>, c: Contact) -> Seq<Contact>
    decreases s.len(),
{
    if s.len() == 0 {
        seq![c]
    } else if contact_key(c) <= contact_key(s.last()) {
        s.push(c)
    } else {
        insert_desc(s.drop_last(), c).push(s.last())
    }
}

/// The stable insertion sort of a contact sequence by descending key.
pub open spec fn sort_spec(s: Seq<Contact>) -> Seq<Contact>
    decreases s.len(),
{
    if s.len() == 0 {
        Seq::empty()
    } else {
        insert_desc(sort_spec(s.drop_last()), s.last())
    }
}

proof fn lemma_insert_desc(s: Seq<Contact>, c: Contact)
    requires
        sorted_desc(s),
    ensures
        sorted_desc(insert_desc(s, c)),
        insert_desc(s, c).to_multiset() == s.to_multiset().insert(c),
        insert_desc(s, c).len() == s.len() + 1,
        forall|i: int|
            0 <= i < insert_desc(s, c).len() ==> (#[trigger] insert_desc(s, c)[i] == c
                || s.contains(insert_desc(s, c)[i])),
    decreases s.len(),
{
    broadcast use vstd::seq_lib::group_to_multiset_ensures;
    broadcast use vstd::multiset::group_multiset_axioms;

    let res = insert_desc(s, c);
    if s.len() == 0 {
        assert(res =~= Seq::empty().push(c));
        assert(res.to_multiset() =~= s.to_multiset().insert(c));
    } else if contact_key(c) <= contact_key(s.last()) {
        assert(res == s.push(c));
        assert forall|i: int, j: int| 0 <= i <= j < res.len() implies contact_key(res[i])
            >= contact_key(res[j]) by {
            if j < s.len() {
            } else {
                if i < s.len() {
                    assert(contact_key(s[i]) >= contact_key(s[s.len() - 1]));
                }
            }
        }
    } else {
        let dl = s.drop_last();
        lemma_insert_desc(dl, c);
        let t = insert_desc(dl, c);
        assert(res == t.push(s.last()));
        // Every element of `t` keys at least as large as the old last
        // element, so pushing it keeps the descending order.
        assert forall|i: int| 0 <= i < t.len() implies contact_key(t[i]) >= contact_key(
            s.last(),
        ) by {
            if t[i] == c {
            } else {
                assert(dl.contains(t[i]));
                let j = choose|j: int| 0 <= j < dl.len() && dl[j] == t[i];
                assert(contact_key(s[j]) >= contact_key(s[s.len() - 1]));
            }
        }
        assert forall|i: int, j: int| 0 <= i <= j < res.len() implies contact_key(res[i])
            >= contact_key(res[j]) by {
            if j < t.len() {
            } else {
                if i < t.len() {
                    assert(contact_key(t[i]) >= contact_key(s.last()));
                }
            }
        }
        assert(s =~= dl.push(s.last()));
        assert(s.to_multiset() == dl.to_multiset().insert(s.last()));
        assert(res.to_multiset() =~= s.to_multiset().insert(c));
        assert forall|i: int| 0 <= i < res.len() implies (#[trigger] res[i] == c || s.contains(
            res[i],
        )) by {
            if i < t.len() {
                if t[i] != c {
                    assert(dl.contains(t[i]));
                    let j = choose|j: int| 0 <= j < dl.len() && dl[j] == t[i];
                    assert(s[j] == res[i]);
                }
            } else {
                assert(res[i] == s[s.len() - 1]);
            }
        }
    }
}

/// The sort produces a descending-sorted permutation of its input: the
/// contact list is processed largest penetration first, and no contact is
/// added or lost.
pub proof fn lemma_sort_spec_sorted(s: Seq<Contact>)
    ensures
        sorted_desc(sort_spec(s)),
        sort_spec(s).to_multiset() == s.to_multiset(),
        sort_spec(s).len() == s.len(),
    decreases s.len(),
{
    broadcast use vstd::seq_lib::group_to_multiset_ensures;

    if s.len() == 0 {
        assert(sort_spec(s).to_multiset() =~= s.to_multiset());
    } else {
        let dl = s.drop_last();
        lemma_sort_spec_sorted(dl);
        lemma_insert_desc(sort_spec(dl), s.last());
        assert(s =~= dl.push(s.last()));
        assert(s.to_multiset() == dl.to_multiset().insert(s.last()));
    }
}

proof fn lemma_insert_desc_at(s: Seq<Contact>, c: Contact, idx: int)
    requires
        0 <= idx <= s.len(),
        sorted_desc(s),
        forall|j: int| idx <= j < s.len() ==> contact_key(#[trigger] s[j]) < contact_key(c),
        idx > 0 ==> contact_key(s[idx - 1]) >= contact_key(c),
    ensures
        s.insert(idx, c) == insert_desc(s, c),
    decreases s.len(),
{
    if idx == s.len() {
        if s.len() == 0 {
            assert(s.insert(0, c) =~= seq![c]);
        } else {
            assert(contact_key(s.last()) >= contact_key(c));
            assert(s.insert(idx, c) =~= s.push(c));
        }
    } else {
        assert(contact_key(s[s.len() - 1]) < contact_key(c));
        let dl = s.drop_last();
        lemma_insert_desc_at(dl, c, idx);
        assert(s.insert(idx, c) =~= dl.insert(idx, c).push(s.last()));
    }
}

/// The two contact lists of one frame: dynamic-static (`wm`) and
/// dynamic-dynamic (`mm`).
#[derive(Debug)]
pub struct Contacts {
    pub wm: Vec<Contact>,
    pub mm: Vec<Contact>,
}

/// Every contact's translation vector is representable (needed to compute
/// its sort key).
pub open spec fn contacts_in_range(s: Seq<Contact>) -> bool {
    forall|k: int| 0 <= k < s.len() ==> v3_in_range(#[trigger] s[k].mtv@)
}

/// Sort one contact list by descending key, by insertion into a fresh list.
fn sort_contacts(v: &mut Vec<Contact>)
    requires
        contacts_in_range(old(v)@),
    ensures
        final(v)@ == sort_spec(old(v)@),
{
    let ghost orig = v@;
    let mut out: Vec<Contact> = Vec::new();
    let mut k: usize = 0;
    proof {
        assert(orig.take(0) =~= Seq::empty());
    }
    while k < v.len()
        invariant
            v@ == orig,
            contacts_in_range(orig),
            k <= orig.len(),
            out@ == sort_spec(orig.take(k as int)),
            sorted_desc(out@),
            contacts_in_range(out@),
        decreases v@.len() - k,
    {
        let c = v[k];
        let mut idx: usize = out.len();
        while idx > 0 && out[idx - 1].mtv.mag2() < c.mtv.mag2()
            invariant
                contacts_in_range(out@),
                v3_in_range(c.mtv@),
                idx <= out@.len(),
                sorted_desc(out@),
                forall|j: int|
                    idx <= j < out@.len() ==> contact_key(#[trigger] out@[j]) < contact_key(c),
            decreases idx,
        {
            idx = idx - 1;
        }
        proof {
            lemma_insert_desc_at(out@, c, idx as int);
            lemma_insert_desc(out@, c);
            assert(orig.take(k + 1).drop_last() =~= orig.take(k as int));
            assert(orig.take(k + 1).last() == orig[k as int]);
        }
        out.insert(idx, c);
        k = k + 1;
    }
    proof {
        assert(orig.take(orig.len() as int) =~= orig);
    }
    *v = out;
}

impl Contacts {
    /// Two empty contact lists.
    pub fn new() -> (r: Contacts)
        ensures
            r.wm@ == Seq::<Contact>::empty(),
            r.mm@ == Seq::<Contact>::empty(),
    {
        Contacts { wm: Vec::new(), mm: Vec::new() }
    }

    /// Sort both lists by descending penetration severity.
    pub fn sort(&mut self)
        requires
            contacts_in_range(old(self).wm@),
            contacts_in_range(old(self).mm@),
        ensures
            final(self).wm@ == sort_spec(old(self).wm@),
            final(self).mm@ == sort_spec(old(self).mm@),
    {
        sort_contacts(&mut self.wm);
        sort_contacts(&mut self.mm);
    }

    /// Empty both lists.
    pub fn clear(&mut self)
        ensures
            final(self).wm@ == Seq::<Contact>::empty(),
            final(self).mm@ == Seq::<Contact>::empty(),
    {
        self.wm.clear();
        self.mm.clear();
    }
}

/// The contact a dynamic pair `(i, j)` contributes: one contact with the
/// sphere-sphere translation vector if the spheres overlap, none otherwise.
pub open spec fn mm_pair(balls: Seq<Ball>, i: int, j: int) -> Seq<Contact> {
    if ss_overlap(balls[i]@.body, balls[j]@.body) {
        seq![
            Contact {
                a: i as usize,
                b: j as usize,
                mtv: v3_to_vec(ss_disp(balls[i]@.body, balls[j]@.body)),
            },
        ]
    } else {
        Seq::empty()
    }
}

/// The contacts of pairs `(i, k)` for `i < k < j`, in scan order.
pub open spec fn mm_row(balls: Seq<Ball>, i: int, j: int) -> Seq<Contact>
    decreases j - i,
{
    if j <= i + 1 {
        Seq::empty()
    } else {
        mm_row(balls, i, j - 1) + mm_pair(balls, i, j - 1)
    }
}

/// The contacts of all pairs with first index below `i`, in scan order.
pub open spec fn mm_rows(balls: Seq<Ball>, i: int) -> Seq<Contact>
    decreases i,
{
    if i <= 0 {
        Seq::empty()
    } else {
        mm_rows(balls, i - 1) + mm_row(balls, i - 1, balls.len() as int)
    }
}

/// All dynamic-dynamic contacts of one frame, in scan order.
pub open spec fn mm_contacts(balls: Seq<Ball>) -> Seq<Contact> {
    mm_rows(balls, balls.len() as int)
}

/// The contact ball `ai` against static `bi` contributes, if they touch.
pub open spec fn wm_pair(balls: Seq<Ball>, statics: Seq<Static>, ai: int, bi: int) -> Seq<
    Contact,
> {
    if sp_touching(balls[ai]@.body, statics[bi]@.body) {
        seq![
            Contact {
                a: ai as usize,
                b: bi as usize,
                mtv: v3_to_vec(sp_disp(balls[ai]@.body, statics[bi]@.body)),
            },
        ]
    } else {
        Seq::empty()
    }
}

/// The contacts of balls `0..j` against static `bi`, in scan order.
pub open spec fn wm_row(balls: Seq<Ball>, statics: Seq<Static>, bi: int, j: int) -> Seq<Contact>
    decreases j,
{
    if j <= 0 {
        Seq::empty()
    } else {
        wm_row(balls, statics, bi, j - 1) + wm_pair(balls, statics, j - 1, bi)
    }
}

/// The contacts of all balls against statics `0..i`, in scan order.
pub open spec fn wm_rows(balls: Seq<Ball>, statics: Seq<Static>, i: int) -> Seq<Contact>
    decreases i,
{
    if i <= 0 {
        Seq::empty()
    } else {
        wm_rows(balls, statics, i - 1) + wm_row(balls, statics, i - 1, balls.len() as int)
    }
}

/// All dynamic-static contacts of one frame, in scan order.
pub open spec fn wm_contacts(balls: Seq<Ball>, statics: Seq<Static>) -> Seq<Contact> {
    wm_rows(balls, statics, statics.len() as int)
}

/// Some ball among the first `i` touches the goal volume.
pub open spec fn goal_touched_upto(balls: Seq<Ball>, goal: GoalM, i: int) -> bool {
    exists|k: int| 0 <= k < i && sb_touching(#[trigger] balls[k]@.body, goal.body)
}

/// Some ball touches the goal volume.
pub open spec fn goal_touched(balls: Seq<Ball>, goal: GoalM) -> bool {
    goal_touched_upto(balls, goal, balls.len() as int)
}

/// The frame classification in priority order
/// `Score > WallCollision > BallCollision > NoEffect`.
pub open spec fn effect_of(goal_hit: bool, n_wm: int, n_mm: int) -> CollisionEffect {
    if goal_hit {
        CollisionEffect::Score
    } else if n_wm > 0 {
        CollisionEffect::WallCollision
    } else if n_mm > 0 {
        CollisionEffect::BallCollision
    } else {
        CollisionEffect::NoEffect
    }
}

/// What one frame's contact gathering reports for the given world.
pub open spec fn effect_spec(balls: Seq<Ball>, statics: Seq<Static>, goal: GoalM) -> CollisionEffect {
    effect_of(
        goal_touched(balls, goal),
        wm_contacts(balls, statics).len() as int,
        mm_contacts(balls).len() as int,
    )
}

/// The collision system: the frame's contact lists plus the resolution
/// configuration (restitution coefficient and timestep).
#[derive(Debug)]
pub struct CollisionDetection {
    pub contacts: Contacts,
    /// The restitution coefficient applied to every resolution impulse.
    pub coeff_r: i64,
    /// The fixed timestep used for dynamic-static impulses.
    pub dt: i64,
}

impl CollisionDetection {
    /// The reference configuration: restitution `0.5`, timestep `1/60`, no
    /// contacts.
    pub fn new() -> (r: CollisionDetection)
        ensures
            r.contacts.wm@ == Seq::<Contact>::empty(),
            r.contacts.mm@ == Seq::<Contact>::empty(),
            r.coeff_r as int == crate::fx::SCALE as int / 2,
            r.dt as int == crate::fx::SCALE as int / 60,
    {
        CollisionDetection {
            contacts: Contacts::new(),
            coeff_r: crate::fx::SCALE / 2,
            dt: crate::fx::SCALE / 60,
        }
    }

    /// Scan every dynamic-dynamic and dynamic-static pair, append a contact
    /// for each overlap, and classify the frame, `Score` taking precedence
    /// over `WallCollision` over `BallCollision`.
    pub fn gather_contacts(
        &mut self,
        statics: &Vec<Static>,
        dynamics: &Vec<Ball>,
        goal: &Goal,
    ) -> (effect: CollisionEffect)
        requires
            forall|i: int| 0 <= i < statics@.len() ==> static_wf(#[trigger] statics@[i]@),
            forall|i: int| 0 <= i < dynamics@.len() ==> ball_wf(#[trigger] dynamics@[i]@),
            goal_wf(goal@),
        ensures
            final(self).contacts.wm@ == old(self).contacts.wm@ + wm_contacts(dynamics@, statics@),
            final(self).contacts.mm@ == old(self).contacts.mm@ + mm_contacts(dynamics@),
            final(self).coeff_r == old(self).coeff_r,
            final(self).dt == old(self).dt,
            effect == effect_spec(dynamics@, statics@, goal@),
    {
        let mut effect = CollisionEffect::NoEffect;
        let n = dynamics.len();
        // Collide mobiles against mobiles.
        let mut ai: usize = 0;
        while ai < n
            invariant
                n == dynamics@.len(),
                ai <= n,
                forall|i: int| 0 <= i < dynamics@.len() ==> ball_wf(#[trigger] dynamics@[i]@),
                self.contacts.mm@ == old(self).contacts.mm@ + mm_rows(dynamics@, ai as int),
                self.contacts.wm@ == old(self).contacts.wm@,
                self.coeff_r == old(self).coeff_r,
                self.dt == old(self).dt,
                effect == effect_of(false, 0, mm_rows(dynamics@, ai as int).len() as int),
            decreases n - ai,
        {
            let mut bi: usize = ai + 1;
            while bi < n
                invariant
                    n == dynamics@.len(),
                    ai < n,
                    ai + 1 <= bi <= n,
                    forall|i: int| 0 <= i < dynamics@.len() ==> ball_wf(#[trigger] dynamics@[i]@),
                    self.contacts.mm@ == old(self).contacts.mm@ + mm_rows(dynamics@, ai as int)
                        + mm_row(dynamics@, ai as int, bi as int),
                    self.contacts.wm@ == old(self).contacts.wm@,
                    self.coeff_r == old(self).coeff_r,
                    self.dt == old(self).dt,
                    effect == effect_of(
                        false,
                        0,
                        mm_rows(dynamics@, ai as int).len() as int + mm_row(
                            dynamics@,
                            ai as int,
                            bi as int,
                        ).len(),
                    ),
                decreases n - bi,
            {
                proof {
                    assert(ball_wf(dynamics@[ai as int]@));
                    assert(ball_wf(dynamics@[bi as int]@));
                }
                if let Some(disp) = disp_sphere_sphere(&dynamics[ai].body, &dynamics[bi].body) {
                    self.contacts.mm.push(Contact { a: ai, b: bi, mtv: disp });
                    effect = CollisionEffect::BallCollision;
                }
                bi = bi + 1;
            }
            ai = ai + 1;
        }
        // Collide mobiles against walls.
        let mut bi: usize = 0;
        while bi < statics.len()
            invariant
                n == dynamics@.len(),
                bi <= statics@.len(),
                forall|i: int| 0 <= i < dynamics@.len() ==> ball_wf(#[trigger] dynamics@[i]@),
                forall|i: int| 0 <= i < statics@.len() ==> static_wf(#[trigger] statics@[i]@),
                self.contacts.mm@ == old(self).contacts.mm@ + mm_contacts(dynamics@),
                self.contacts.wm@ == old(self).contacts.wm@ + wm_rows(
                    dynamics@,
                    statics@,
                    bi as int,
                ),
                self.coeff_r == old(self).coeff_r,
                self.dt == old(self).dt,
                effect == effect_of(
                    false,
                    wm_rows(dynamics@, statics@, bi as int).len() as int,
                    mm_contacts(dynamics@).len() as int,
                ),
            decreases statics@.len() - bi,
        {
            let mut ai2: usize = 0;
            while ai2 < n
                invariant
                    n == dynamics@.len(),
                    bi < statics@.len(),
                    ai2 <= n,
                    forall|i: int| 0 <= i < dynamics@.len() ==> ball_wf(#[trigger] dynamics@[i]@),
                    forall|i: int| 0 <= i < statics@.len() ==> static_wf(#[trigger] statics@[i]@),
                    self.contacts.mm@ == old(self).contacts.mm@ + mm_contacts(dynamics@),
                    self.contacts.wm@ == old(self).contacts.wm@ + wm_rows(
                        dynamics@,
                        statics@,
                        bi as int,
                    ) + wm_row(dynamics@, statics@, bi as int, ai2 as int),
                    self.coeff_r == old(self).coeff_r,
                    self.dt == old(self).dt,
                    effect == effect_of(
                        false,
                        wm_rows(dynamics@, statics@, bi as int).len() as int + wm_row(
                            dynamics@,
                            statics@,
                            bi as int,
                            ai2 as int,
                        ).len(),
                        mm_contacts(dynamics@).len() as int,
                    ),
                decreases n - ai2,
            {
                proof {
                    assert(ball_wf(dynamics@[ai2 as int]@));
                    assert(static_wf(statics@[bi as int]@));
                }
                if let Some(disp) = disp_sphere_plane(&dynamics[ai2].body, &statics[bi].body) {
                    self.contacts.wm.push(Contact { a: ai2, b: bi, mtv: disp });
                    effect = CollisionEffect::WallCollision;
                }
                ai2 = ai2 + 1;
            }
            bi = bi + 1;
        }
        // The goal touch test is evaluated last and unconditionally wins.
        let mut ai3: usize = 0;
        while ai3 < n
            invariant
                n == dynamics@.len(),
                ai3 <= n,
                forall|i: int| 0 <= i < dynamics@.len() ==> ball_wf(#[trigger] dynamics@[i]@),
                goal_wf(goal@),
                self.contacts.mm@ == old(self).contacts.mm@ + mm_contacts(dynamics@),
                self.contacts.wm@ == old(self).contacts.wm@ + wm_contacts(dynamics@, statics@),
                self.coeff_r == old(self).coeff_r,
                self.dt == old(self).dt,
                effect == effect_of(
                    goal_touched_upto(dynamics@, goal@, ai3 as int),
                    wm_contacts(dynamics@, statics@).len() as int,
                    mm_contacts(dynamics@).len() as int,
                ),
            decreases n - ai3,
        {
            proof {
                assert(ball_wf(dynamics@[ai3 as int]@));
            }
            if touching_sphere_box(&dynamics[ai3].body, &goal.body) {
                effect = CollisionEffect::Score;
            }
            ai3 = ai3 + 1;
        }
        effect
    }
}

/// Every gathered dynamic-dynamic contact describes an overlapping pair
/// and carries its displacement.
proof fn lemma_mm_row_sound(balls: Seq<Ball>, i: int, j: int)
    requires
        0 <= i < balls.len(),
        j <= balls.len(),
        balls.len() <= usize::MAX,
    ensures
        forall|k: int|
            0 <= k < mm_row(balls, i, j).len() ==> {
                let c = #[trigger] mm_row(balls, i, j)[k];
                &&& c.a as int == i
                &&& i < c.b as int && (c.b as int) < j
                &&& ss_overlap(balls[i]@.body, balls[c.b as int]@.body)
                &&& c.mtv == v3_to_vec(ss_disp(balls[i]@.body, balls[c.b as int]@.body))
            },
    decreases j - i,
{
    if j <= i + 1 {
    } else {
        lemma_mm_row_sound(balls, i, j - 1);
        let row = mm_row(balls, i, j);
        let prev = mm_row(balls, i, j - 1);
        assert forall|k: int| 0 <= k < row.len() implies {
            let c = #[trigger] row[k];
            &&& c.a as int == i
            &&& i < c.b as int && (c.b as int) < j
            &&& ss_overlap(balls[i]@.body, balls[c.b as int]@.body)
            &&& c.mtv == v3_to_vec(ss_disp(balls[i]@.body, balls[c.b as int]@.body))
        } by {
            if k < prev.len() {
                assert(row[k] == prev[k]);
            } else {
                assert(row[k] == mm_pair(balls, i, j - 1)[k - prev.len()]);
            }
        }
    }
}

proof fn lemma_mm_rows_sound(balls: Seq<Ball>, i: int)
    requires
        i <= balls.len(),
        balls.len() <= usize::MAX,
    ensures
        forall|k: int|
            0 <= k < mm_rows(balls, i).len() ==> {
                let c = #[trigger] mm_rows(balls, i)[k];
                &&& (c.a as int) < i
                &&& (c.a as int) < c.b as int && (c.b as int) < balls.len()
                &&& ss_overlap(balls[c.a as int]@.body, balls[c.b as int]@.body)
                &&& c.mtv == v3_to_vec(ss_disp(balls[c.a as int]@.body, balls[c.b as int]@.body))
            },
    decreases i,
{
    if i <= 0 {
    } else {
        lemma_mm_rows_sound(balls, i - 1);
        lemma_mm_row_sound(balls, i - 1, balls.len() as int);
        let rows = mm_rows(balls, i);
        let prev = mm_rows(balls, i - 1);
        let row = mm_row(balls, i - 1, balls.len() as int);
        assert forall|k: int| 0 <= k < rows.len() implies {
            let c = #[trigger] rows[k];
            &&& (c.a as int) < i
            &&& (c.a as int) < c.b as int && (c.b as int) < balls.len()
            &&& ss_overlap(balls[c.a as int]@.body, balls[c.b as int]@.body)
            &&& c.mtv == v3_to_vec(ss_disp(balls[c.a as int]@.body, balls[c.b as int]@.body))
        } by {
            if k < prev.len() {
                assert(rows[k] == prev[k]);
            } else {
                assert(rows[k] == row[k - prev.len()]);
            }
        }
    }
}

proof fn lemma_mm_row_complete(balls: Seq<Ball>, i: int, j: int, jj: int)
    requires
        0 <= i < jj < j <= balls.len(),
        balls.len() <= usize::MAX,
        ss_overlap(balls[i]@.body, balls[jj]@.body),
    ensures
        exists|k: int|
            0 <= k < mm_row(balls, i, j).len() && (#[trigger] mm_row(balls, i, j)[k]).a as int == i
                && mm_row(balls, i, j)[k].b as int == jj,
    decreases j - i,
{
    let row = mm_row(balls, i, j);
    if jj == j - 1 {
        let prev = mm_row(balls, i, j - 1);
        assert(row[prev.len() as int].a as int == i && row[prev.len() as int].b as int == jj);
    } else {
        lemma_mm_row_complete(balls, i, j - 1, jj);
        let prev = mm_row(balls, i, j - 1);
        let k = choose|k: int|
            0 <= k < prev.len() && (#[trigger] prev[k]).a as int == i && prev[k].b as int == jj;
        assert(row[k].a as int == i && row[k].b as int == jj);
    }
}

proof fn lemma_mm_rows_complete(balls: Seq<Ball>, i: int, ii: int, jj: int)
    requires
        0 <= ii < i <= balls.len(),
        ii < jj < balls.len(),
        balls.len() <= usize::MAX,
        ss_overlap(balls[ii]@.body, balls[jj]@.body),
    ensures
        exists|k: int|
            0 <= k < mm_rows(balls, i).len() && (#[trigger] mm_rows(balls, i)[k]).a as int == ii
                && mm_rows(balls, i)[k].b as int == jj,
    decreases i,
{
    let rows = mm_rows(balls, i);
    let prev = mm_rows(balls, i - 1);
    if ii == i - 1 {
        lemma_mm_row_complete(balls, ii, balls.len() as int, jj);
        let row = mm_row(balls, i - 1, balls.len() as int);
        let k = choose|k: int|
            0 <= k < row.len() && (#[trigger] row[k]).a as int == ii && row[k].b as int == jj;
        assert(rows[prev.len() + k].a as int == ii && rows[prev.len() + k].b as int == jj);
    } else {
        lemma_mm_rows_complete(balls, i - 1, ii, jj);
        let k = choose|k: int|
            0 <= k < prev.len() && (#[trigger] prev[k]).a as int == ii && prev[k].b as int == jj;
        assert(rows[k].a as int == ii && rows[k].b as int == jj);
    }
}

/// Law: the dynamic-dynamic contact list of one frame holds a contact for
/// a pair exactly when the pair overlaps, and each gathered contact
/// carries the pair's sphere-sphere displacement.
pub proof fn lemma_gather_pairs_exact(balls: Seq<Ball>, i: int, j: int)
    requires
        0 <= i < j < balls.len(),
        balls.len() <= usize::MAX,
    ensures
        ss_overlap(balls[i]@.body, balls[j]@.body) <==> exists|k: int|
            0 <= k < mm_contacts(balls).len() && (#[trigger] mm_contacts(balls)[k]).a as int == i
                && mm_contacts(balls)[k].b as int == j,
        forall|k: int|
            0 <= k < mm_contacts(balls).len() ==> {
                let c = #[trigger] mm_contacts(balls)[k];
                &&& (c.a as int) < c.b as int && (c.b as int) < balls.len()
                &&& ss_overlap(balls[c.a as int]@.body, balls[c.b as int]@.body)
                &&& c.mtv == v3_to_vec(ss_disp(balls[c.a as int]@.body, balls[c.b as int]@.body))
            },
{
    lemma_mm_rows_sound(balls, balls.len() as int);
    if ss_overlap(balls[i]@.body, balls[j]@.body) {
        lemma_mm_rows_complete(balls, balls.len() as int, i, j);
        let rows = mm_rows(balls, balls.len() as int);
        let k = choose|k: int|
            0 <= k < rows.len() && (#[trigger] rows[k]).a as int == i && rows[k].b as int == j;
        assert(0 <= k < mm_contacts(balls).len() && mm_contacts(balls)[k].a as int == i
            && mm_contacts(balls)[k].b as int == j);
    }
    if exists|k: int|
        0 <= k < mm_contacts(balls).len() && (#[trigger] mm_contacts(balls)[k]).a as int == i
            && mm_contacts(balls)[k].b as int == j {
        let k = choose|k: int|
            0 <= k < mm_contacts(balls).len() && (#[trigger] mm_contacts(balls)[k]).a as int == i
                && mm_contacts(balls)[k].b as int == j;
        assert(ss_overlap(
            balls[mm_contacts(balls)[k].a as int]@.body,
            balls[mm_contacts(balls)[k].b as int]@.body,
        ));
    }
}

proof fn lemma_wm_row_sound(balls: Seq<Ball>, statics: Seq<Static>, bi: int, j: int)
    requires
        0 <= bi < statics.len(),
        j <= balls.len(),
        balls.len() <= usize::MAX,
        statics.len() <= usize::MAX,
    ensures
        forall|k: int|
            0 <= k < wm_row(balls, statics, bi, j).len() ==> {
                let c = #[trigger] wm_row(balls, statics, bi, j)[k];
                &&& c.b as int == bi
                &&& 0 <= c.a as int && (c.a as int) < j
                &&& sp_touching(balls[c.a as int]@.body, statics[bi]@.body)
                &&& c.mtv == v3_to_vec(sp_disp(balls[c.a as int]@.body, statics[bi]@.body))
            },
    decreases j,
{
    if j <= 0 {
    } else {
        lemma_wm_row_sound(balls, statics, bi, j - 1);
        let row = wm_row(balls, statics, bi, j);
        let prev = wm_row(balls, statics, bi, j - 1);
        assert forall|k: int| 0 <= k < row.len() implies {
            let c = #[trigger] row[k];
            &&& c.b as int == bi
            &&& 0 <= c.a as int && (c.a as int) < j
            &&& sp_touching(balls[c.a as int]@.body, statics[bi]@.body)
            &&& c.mtv == v3_to_vec(sp_disp(balls[c.a as int]@.body, statics[bi]@.body))
        } by {
            if k < prev.len() {
                assert(row[k] == prev[k]);
            } else {
                assert(row[k] == wm_pair(balls, statics, j - 1, bi)[k - prev.len()]);
            }
        }
    }
}

proof fn lemma_wm_rows_sound(balls: Seq<Ball>, statics: Seq<Static>, i: int)
    requires
        i <= statics.len(),
        balls.len() <= usize::MAX,
        statics.len() <= usize::MAX,
    ensures
        forall|k: int|
            0 <= k < wm_rows(balls, statics, i).len() ==> {
                let c = #[trigger] wm_rows(balls, statics, i)[k];
                &&& (c.b as int) < i
                &&& 0 <= c.a as int && (c.a as int) < balls.len()
                &&& sp_touching(balls[c.a as int]@.body, statics[c.b as int]@.body)
                &&& c.mtv == v3_to_vec(sp_disp(balls[c.a as int]@.body, statics[c.b as int]@.body))
            },
    decreases i,
{
    if i <= 0 {
    } else {
        lemma_wm_rows_sound(balls, statics, i - 1);
        lemma_wm_row_sound(balls, statics, i - 1, balls.len() as int);
        let rows = wm_rows(balls, statics, i);
        let prev = wm_rows(balls, statics, i - 1);
        let row = wm_row(balls, statics, i - 1, balls.len() as int);
        assert forall|k: int| 0 <= k < rows.len() implies {
            let c = #[trigger] rows[k];
            &&& (c.b as int) < i
            &&& 0 <= c.a as int && (c.a as int) < balls.len()
            &&& sp_touching(balls[c.a as int]@.body, statics[c.b as int]@.body)
            &&& c.mtv == v3_to_vec(sp_disp(balls[c.a as int]@.body, statics[c.b as int]@.body))
        } by {
            if k < prev.len() {
                assert(rows[k] == prev[k]);
            } else {
                assert(rows[k] == row[k - prev.len()]);
            }
        }
    }
}

proof fn lemma_wm_row_complete(balls: Seq<Ball>, statics: Seq<Static>, bi: int, j: int, aa: int)
    requires
        0 <= bi < statics.len(),
        0 <= aa < j <= balls.len(),
        balls.len() <= usize::MAX,
        statics.len() <= usize::MAX,
        sp_touching(balls[aa]@.body, statics[bi]@.body),
    ensures
        exists|k: int|
            0 <= k < wm_row(balls, statics, bi, j).len() && (#[trigger] wm_row(
                balls,
                statics,
                bi,
                j,
            )[k]).a as int == aa && wm_row(balls, statics, bi, j)[k].b as int == bi,
    decreases j,
{
    let row = wm_row(balls, statics, bi, j);
    let prev = wm_row(balls, statics, bi, j - 1);
    if aa == j - 1 {
        assert(row[prev.len() as int].a as int == aa && row[prev.len() as int].b as int == bi);
    } else {
        lemma_wm_row_complete(balls, statics, bi, j - 1, aa);
        let k = choose|k: int|
            0 <= k < prev.len() && (#[trigger] prev[k]).a as int == aa && prev[k].b as int == bi;
        assert(row[k].a as int == aa && row[k].b as int == bi);
    }
}

proof fn lemma_wm_rows_complete(balls: Seq<Ball>, statics: Seq<Static>, i: int, aa: int, bb: int)
    requires
        0 <= bb < i <= statics.len(),
        0 <= aa < balls.len(),
        balls.len() <= usize::MAX,
        statics.len() <= usize::MAX,
        sp_touching(balls[aa]@.body, statics[bb]@.body),
    ensures
        exists|k: int|
            0 <= k < wm_rows(balls, statics, i).len() && (#[trigger] wm_rows(
                balls,
                statics,
                i,
            )[k]).a as int == aa && wm_rows(balls, statics, i)[k].b as int == bb,
    decreases i,
{
    let rows = wm_rows(balls, statics, i);
    let prev = wm_rows(balls, statics, i - 1);
    if bb == i - 1 {
        lemma_wm_row_complete(balls, statics, bb, balls.len() as int, aa);
        let row = wm_row(balls, statics, i - 1, balls.len() as int);
        let k = choose|k: int|
            0 <= k < row.len() && (#[trigger] row[k]).a as int == aa && row[k].b as int == bb;
        assert(rows[prev.len() + k].a as int == aa && rows[prev.len() + k].b as int == bb);
    } else {
        lemma_wm_rows_complete(balls, statics, i - 1, aa, bb);
        let k = choose|k: int|
            0 <= k < prev.len() && (#[trigger] prev[k]).a as int == aa && prev[k].b as int == bb;
        assert(rows[k].a as int == aa && rows[k].b as int == bb);
    }
}

/// Law: the dynamic-static contact list of one frame holds a contact for a
/// ball-plane pair exactly when they touch, and each gathered contact
/// carries the pair's sphere-plane displacement.
pub proof fn lemma_gather_walls_exact(balls: Seq<Ball>, statics: Seq<Static>, a: int, b: int)
    requires
        0 <= a < balls.len(),
        0 <= b < statics.len(),
        balls.len() <= usize::MAX,
        statics.len() <= usize::MAX,
    ensures
        sp_touching(balls[a]@.body, statics[b]@.body) <==> exists|k: int|
            0 <= k < wm_contacts(balls, statics).len() && (#[trigger] wm_contacts(
                balls,
                statics,
            )[k]).a as int == a && wm_contacts(balls, statics)[k].b as int == b,
        forall|k: int|
            0 <= k < wm_contacts(balls, statics).len() ==> {
                let c = #[trigger] wm_contacts(balls, statics)[k];
                &&& (c.a as int) < balls.len() && (c.b as int) < statics.len()
                &&& sp_touching(balls[c.a as int]@.body, statics[c.b as int]@.body)
                &&& c.mtv == v3_to_vec(sp_disp(balls[c.a as int]@.body, statics[c.b as int]@.body))
            },
{
    lemma_wm_rows_sound(balls, statics, statics.len() as int);
    if sp_touching(balls[a]@.body, statics[b]@.body) {
        lemma_wm_rows_complete(balls, statics, statics.len() as int, a, b);
        let rows = wm_rows(balls, statics, statics.len() as int);
        let k = choose|k: int|
            0 <= k < rows.len() && (#[trigger] rows[k]).a as int == a && rows[k].b as int == b;
        assert(0 <= k < wm_contacts(balls, statics).len() && wm_contacts(balls, statics)[k].a as int
            == a && wm_contacts(balls, statics)[k].b as int == b);
    }
    if exists|k: int|
        0 <= k < wm_contacts(balls, statics).len() && (#[trigger] wm_contacts(
            balls,
            statics,
        )[k]).a as int == a && wm_contacts(balls, statics)[k].b as int == b {
        let k = choose|k: int|
            0 <= k < wm_contacts(balls, statics).len() && (#[trigger] wm_contacts(
                balls,
                statics,
            )[k]).a as int == a && wm_contacts(balls, statics)[k].b as int == b;
        assert(sp_touching(
            balls[wm_contacts(balls, statics)[k].a as int]@.body,
            statics[wm_contacts(balls, statics)[k].b as int]@.body,
        ));
    }
}

/// Contact indices valid for the dynamic-static list: ball index `a`,
/// static index `b`.
pub open spec fn wm_contacts_wf(cs: Seq<Contact>, n_balls: int, n_statics: int) -> bool {
    forall|k: int|
        0 <= k < cs.len() ==> (#[trigger] cs[k]).a < n_balls && cs[k].b < n_statics
}

/// Contact indices valid for the dynamic-dynamic list: `a < b`, both ball
/// indices.
pub open spec fn mm_contacts_wf(cs: Seq<Contact>, n_balls: int) -> bool {
    forall|k: int|
        0 <= k < cs.len() ==> (#[trigger] cs[k]).a < cs[k].b && cs[k].b < n_balls
}

/// Resolve one dynamic-static contact: re-test the pair and, if still
/// touching, push the ball out by the recomputed displacement and add the
/// proportional impulse `((disp * mass) * coeff) * dt` to its momentum.
pub open spec fn resolve_static_one(
    balls: Seq<Ball>,
    phys: Seq<Physics>,
    statics: Seq<Static>,
    c: Contact,
    coeff: int,
    dt: int,
) -> (Seq<Ball>, Seq<Physics>)
    recommends
        c.a < balls.len(),
        c.b < statics.len(),
        balls.len() == phys.len(),
{
    let a = c.a as int;
    let ball = balls[a];
    let pl = statics[c.b as int];
    if sp_touching(ball@.body, pl@.body) {
        let disp = sp_disp(ball@.body, pl@.body);
        let nb = Ball {
            body: Sphere { c: v3_to_vec(v3_add(ball@.body.c, disp)), r: ball.body.r },
            ..ball
        };
        let imp = v3_scale_fx(v3_scale_fx(v3_scale_fx(disp, ball.mass as int), coeff), dt);
        let np = Physics {
            momentum: v3_to_vec(v3_add(phys[a]@.momentum, imp)),
            ..phys[a]
        };
        (balls.update(a, nb), phys.update(a, np))
    } else {
        (balls, phys)
    }
}

/// The state after resolving the first `k` dynamic-static contacts in
/// order.
pub open spec fn resolve_statics_upto(
    balls: Seq<Ball>,
    phys: Seq<Physics>,
    statics: Seq<Static>,
    cs: Seq<Contact>,
    k: int,
    coeff: int,
    dt: int,
) -> (Seq<Ball>, Seq<Physics>)
    decreases k,
{
    if k <= 0 {
        (balls, phys)
    } else {
        let prev = resolve_statics_upto(balls, phys, statics, cs, k - 1, coeff, dt);
        resolve_static_one(prev.0, prev.1, statics, cs[k - 1], coeff, dt)
    }
}

/// Resolve one dynamic-dynamic contact: re-test the pair and, if still
/// overlapping, split the positional correction evenly and exchange
/// momentum by the 1-D elastic-collision formula
/// `v1f = (m1*v1 + 2*m2*v2 - m2*v1) / (m1 + m2)`, `v2f = v1 + v1f - v2`,
/// applying the velocity deltas scaled by the restitution coefficient and
/// each mass as impulses.
pub open spec fn resolve_dynamic_one(
    balls: Seq<Ball>,
    phys: Seq<Physics>,
    c: Contact,
    coeff: int,
) -> (Seq<Ball>, Seq<Physics>)
    recommends
        c.a < c.b < balls.len(),
        balls.len() == phys.len(),
        forall|i: int| 0 <= i < balls.len() ==> ball_wf(#[trigger] balls[i]@),
{
    let a = c.a as int;
    let b = c.b as int;
    if ss_overlap(balls[a]@.body, balls[b]@.body) {
        let disp = ss_disp(balls[a]@.body, balls[b]@.body);
        let m1 = balls[a].mass as int;
        let m2 = balls[b].mass as int;
        let v1 = v3_muldiv(phys[a]@.momentum, SCALE as int, m1);
        let v2 = v3_muldiv(phys[b]@.momentum, SCALE as int, m2);
        let num = v3_sub(
            v3_add(v3_scale_fx(v1, m1), v3_scale_fx(v2, fmul(2 * SCALE as int, m2))),
            v3_scale_fx(v1, m2),
        );
        let v1f = v3_muldiv(num, SCALE as int, m1 + m2);
        let v2f = v3_sub(v3_add(v1, v1f), v2);
        let v1r = v3_sub(v1f, v1);
        let v2r = v3_sub(v2f, v2);
        let nb_a = Ball {
            body: Sphere {
                c: v3_to_vec(v3_sub(balls[a]@.body.c, v3_half(disp))),
                r: balls[a].body.r,
            },
            ..balls[a]
        };
        let nb_b = Ball {
            body: Sphere {
                c: v3_to_vec(v3_add(balls[b]@.body.c, v3_half(disp))),
                r: balls[b].body.r,
            },
            ..balls[b]
        };
        let np_a = Physics {
            momentum: v3_to_vec(v3_add(phys[a]@.momentum, v3_scale_fx(v1r, fmul(coeff, m1)))),
            ..phys[a]
        };
        let np_b = Physics {
            momentum: v3_to_vec(v3_add(phys[b]@.momentum, v3_scale_fx(v2r, fmul(coeff, m2)))),
            ..phys[b]
        };
        (balls.update(a, nb_a).update(b, nb_b), phys.update(a, np_a).update(b, np_b))
    } else {
        (balls, phys)
    }
}

/// The state after resolving the first `k` dynamic-dynamic contacts in
/// order.
pub open spec fn resolve_dynamics_upto(
    balls: Seq<Ball>,
    phys: Seq<Physics>,
    cs: Seq<Contact>,
    k: int,
    coeff: int,
) -> (Seq<Ball>, Seq<Physics>)
    decreases k,
{
    if k <= 0 {
        (balls, phys)
    } else {
        let prev = resolve_dynamics_upto(balls, phys, cs, k - 1, coeff);
        resolve_dynamic_one(prev.0, prev.1, cs[k - 1], coeff)
    }
}

/// The whole resolution pass over both sorted lists.
pub open spec fn resolve_all(
    balls: Seq<Ball>,
    phys: Seq<Physics>,
    statics: Seq<Static>,
    cs_wm: Seq<Contact>,
    cs_mm: Seq<Contact>,
    coeff: int,
    dt: int,
) -> (Seq<Ball>, Seq<Physics>) {
    let s1 = resolve_statics_upto(balls, phys, statics, cs_wm, cs_wm.len() as int, coeff, dt);
    resolve_dynamics_upto(s1.0, s1.1, cs_mm, cs_mm.len() as int, coeff)
}

/// Every element of the sorted list occurs in the unsorted list.
pub proof fn lemma_sort_spec_elems(s: Seq<Contact>)
    ensures
        forall|k: int| 0 <= k < sort_spec(s).len() ==> s.contains(#[trigger] sort_spec(s)[k]),
{
    broadcast use vstd::seq_lib::group_to_multiset_ensures;
    broadcast use vstd::multiset::group_multiset_axioms;

    lemma_sort_spec_sorted(s);
    assert forall|k: int| 0 <= k < sort_spec(s).len() implies s.contains(
        #[trigger] sort_spec(s)[k],
    ) by {
        let e = sort_spec(s)[k];
        assert(sort_spec(s).contains(e));
        assert(sort_spec(s).to_multiset().count(e) > 0);
    }
}

proof fn lemma_wm_row_wf(balls: Seq<Ball>, statics: Seq<Static>, bi: int, j: int)
    requires
        0 <= bi < statics.len(),
        0 <= j <= balls.len(),
        balls.len() <= usize::MAX,
        statics.len() <= usize::MAX,
    ensures
        wm_contacts_wf(wm_row(balls, statics, bi, j), balls.len() as int, statics.len() as int),
        contacts_in_range(wm_row(balls, statics, bi, j)),
    decreases j,
{
    if j <= 0 {
    } else {
        lemma_wm_row_wf(balls, statics, bi, j - 1);
    }
}

proof fn lemma_wm_rows_wf(balls: Seq<Ball>, statics: Seq<Static>, i: int)
    requires
        0 <= i <= statics.len(),
        balls.len() <= usize::MAX,
        statics.len() <= usize::MAX,
    ensures
        wm_contacts_wf(wm_rows(balls, statics, i), balls.len() as int, statics.len() as int),
        contacts_in_range(wm_rows(balls, statics, i)),
    decreases i,
{
    if i <= 0 {
    } else {
        lemma_wm_rows_wf(balls, statics, i - 1);
        lemma_wm_row_wf(balls, statics, i - 1, balls.len() as int);
    }
}

proof fn lemma_mm_row_wf(balls: Seq<Ball>, i: int, j: int)
    requires
        0 <= i < balls.len(),
        j <= balls.len(),
        balls.len() <= usize::MAX,
    ensures
        mm_contacts_wf(mm_row(balls, i, j), balls.len() as int),
        contacts_in_range(mm_row(balls, i, j)),
    decreases j - i,
{
    if j <= i + 1 {
    } else {
        lemma_mm_row_wf(balls, i, j - 1);
    }
}

proof fn lemma_mm_rows_wf(balls: Seq<Ball>, i: int)
    requires
        0 <= i <= balls.len(),
        balls.len() <= usize::MAX,
    ensures
        mm_contacts_wf(mm_rows(balls, i), balls.len() as int),
        contacts_in_range(mm_rows(balls, i)),
    decreases i,
{
    if i <= 0 {
    } else {
        lemma_mm_rows_wf(balls, i - 1);
        lemma_mm_row_wf(balls, i - 1, balls.len() as int);
    }
}

proof fn lemma_sorted_wm_wf(s: Seq<Contact>, n_balls: int, n_statics: int)
    requires
        wm_contacts_wf(s, n_balls, n_statics),
        contacts_in_range(s),
    ensures
        wm_contacts_wf(sort_spec(s), n_balls, n_statics),
        contacts_in_range(sort_spec(s)),
{
    lemma_sort_spec_elems(s);
    assert forall|k: int|
        0 <= k < sort_spec(s).len() implies (#[trigger] sort_spec(s)[k]).a < n_balls
        && sort_spec(s)[k].b < n_statics && v3_in_range(sort_spec(s)[k].mtv@) by {
        let e = sort_spec(s)[k];
        assert(s.contains(e));
        let j = choose|j: int| 0 <= j < s.len() && s[j] == e;
        assert(s[j].a < n_balls && s[j].b < n_statics && v3_in_range(s[j].mtv@));
    }
}

proof fn lemma_sorted_mm_wf(s: Seq<Contact>, n_balls: int)
    requires
        mm_contacts_wf(s, n_balls),
        contacts_in_range(s),
    ensures
        mm_contacts_wf(sort_spec(s), n_balls),
        contacts_in_range(sort_spec(s)),
{
    lemma_sort_spec_elems(s);
    assert forall|k: int|
        0 <= k < sort_spec(s).len() implies (#[trigger] sort_spec(s)[k]).a < sort_spec(s)[k].b
        && sort_spec(s)[k].b < n_balls && v3_in_range(sort_spec(s)[k].mtv@) by {
        let e = sort_spec(s)[k];
        assert(s.contains(e));
        let j = choose|j: int| 0 <= j < s.len() && s[j] == e;
        assert(s[j].a < s[j].b && s[j].b < n_balls && v3_in_range(s[j].mtv@));
    }
}

impl CollisionDetection {
    /// Resolve the gathered contacts, dynamic-static first, each list in
    /// descending penetration order: re-test each pair and, where still
    /// touching, separate the bodies and apply the impulses of
    /// `resolve_static_one` and `resolve_dynamic_one`.
    pub fn restitute(
        &mut self,
        statics: &Vec<Static>,
        balls: &mut Vec<Ball>,
        physics: &mut Vec<Physics>,
    )
        requires
            old(balls)@.len() == old(physics)@.len(),
            forall|i: int| 0 <= i < old(balls)@.len() ==> ball_wf(#[trigger] old(balls)@[i]@),
            forall|i: int| 0 <= i < statics@.len() ==> static_wf(#[trigger] statics@[i]@),
            wm_contacts_wf(
                old(self).contacts.wm@,
                old(balls)@.len() as int,
                statics@.len() as int,
            ),
            mm_contacts_wf(old(self).contacts.mm@, old(balls)@.len() as int),
            contacts_in_range(old(self).contacts.wm@),
            contacts_in_range(old(self).contacts.mm@),
        ensures
            final(self).contacts.wm@ == sort_spec(old(self).contacts.wm@),
            final(self).contacts.mm@ == sort_spec(old(self).contacts.mm@),
            final(self).coeff_r == old(self).coeff_r,
            final(self).dt == old(self).dt,
            final(balls)@.len() == old(balls)@.len(),
            final(physics)@.len() == old(physics)@.len(),
            forall|i: int| 0 <= i < final(balls)@.len() ==> ball_wf(#[trigger] final(balls)@[i]@),
            ({
                let st = resolve_all(
                    old(balls)@,
                    old(physics)@,
                    statics@,
                    sort_spec(old(self).contacts.wm@),
                    sort_spec(old(self).contacts.mm@),
                    old(self).coeff_r as int,
                    old(self).dt as int,
                );
                final(balls)@ == st.0 && final(physics)@ == st.1
            }),
    {
        self.contacts.sort();
        proof {
            lemma_sorted_wm_wf(
                old(self).contacts.wm@,
                old(balls)@.len() as int,
                statics@.len() as int,
            );
            lemma_sorted_mm_wf(old(self).contacts.mm@, old(balls)@.len() as int);
        }
        let ghost cs_w = self.contacts.wm@;
        let ghost cs_m = self.contacts.mm@;
        let ghost balls0 = balls@;
        let ghost phys0 = physics@;
        let coeff = self.coeff_r;
        let dt = self.dt;
        let nw = self.contacts.wm.len();
        let mut i: usize = 0;
        while i < nw
            invariant
                self.contacts.wm@ == cs_w,
                self.contacts.mm@ == cs_m,
                self.coeff_r == coeff,
                self.dt == dt,
                nw == cs_w.len(),
                i <= nw,
                balls0.len() == phys0.len(),
                balls@.len() == balls0.len(),
                physics@.len() == phys0.len(),
                wm_contacts_wf(cs_w, balls0.len() as int, statics@.len() as int),
                forall|j: int| 0 <= j < statics@.len() ==> static_wf(#[trigger] statics@[j]@),
                forall|j: int| 0 <= j < balls@.len() ==> ball_wf(#[trigger] balls@[j]@),
                ({
                    let st = resolve_statics_upto(
                        balls0,
                        phys0,
                        statics@,
                        cs_w,
                        i as int,
                        coeff as int,
                        dt as int,
                    );
                    balls@ == st.0 && physics@ == st.1
                }),
            decreases nw - i,
        {
            let c = self.contacts.wm[i];
            proof {
                assert(cs_w[i as int] == c);
                assert(c.a < balls@.len() && c.b < statics@.len());
                assert(ball_wf(balls@[c.a as int]@));
                assert(static_wf(statics@[c.b as int]@));
            }
            let a = c.a;
            let b = c.b;
            // Re-test: positions may have shifted since gathering.
            if let Some(disp) = disp_sphere_plane(&balls[a].body, &statics[b].body) {
                let mut bb = balls[a];
                bb.body.c = bb.body.c.add(&disp);
                let imp = disp.scale_fx(bb.mass).scale_fx(coeff).scale_fx(dt);
                balls[a] = bb;
                let mut pp = physics[a];
                pp.apply_impulse(imp);
                physics[a] = pp;
                proof {
                    assert(ball_wf(bb@));
                }
            }
            i = i + 1;
        }
        let nm = self.contacts.mm.len();
        let mut k: usize = 0;
        while k < nm
            invariant
                self.contacts.wm@ == cs_w,
                self.contacts.mm@ == cs_m,
                self.coeff_r == coeff,
                self.dt == dt,
                nm == cs_m.len(),
                k <= nm,
                balls0.len() == phys0.len(),
                balls@.len() == balls0.len(),
                physics@.len() == phys0.len(),
                mm_contacts_wf(cs_m, balls0.len() as int),
                forall|j: int| 0 <= j < balls@.len() ==> ball_wf(#[trigger] balls@[j]@),
                ({
                    let s1 = resolve_statics_upto(
                        balls0,
                        phys0,
                        statics@,
                        cs_w,
                        cs_w.len() as int,
                        coeff as int,
                        dt as int,
                    );
                    let st = resolve_dynamics_upto(s1.0, s1.1, cs_m, k as int, coeff as int);
                    balls@ == st.0 && physics@ == st.1
                }),
            decreases nm - k,
        {
            let c = self.contacts.mm[k];
            proof {
                assert(cs_m[k as int] == c);
                assert(c.a < c.b && c.b < balls@.len());
                assert(ball_wf(balls@[c.a as int]@));
                assert(ball_wf(balls@[c.b as int]@));
            }
            let a = c.a;
            let b = c.b;
            // Re-test, then split the difference and exchange momentum.
            if let Some(disp) = disp_sphere_sphere(&balls[a].body, &balls[b].body) {
                let m1 = balls[a].mass;
                let v1 = physics[a].momentum.muldiv(SCALE, m1);
                let m2 = balls[b].mass;
                let v2 = physics[b].momentum.muldiv(SCALE, m2);
                let num = v1.scale_fx(m1).add(&v2.scale_fx(smul_fx(2 * SCALE, m2))).sub(
                    &v1.scale_fx(m2),
                );
                let msum = m1 + m2;
                let v1f = num.muldiv(SCALE, msum);
                let v2f = v1.add(&v1f).sub(&v2);
                let v1r = v1f.sub(&v1);
                let v2r = v2f.sub(&v2);
                let half = disp.half();
                let mut ba = balls[a];
                ba.body.c = ba.body.c.sub(&half);
                balls[a] = ba;
                let mut pa = physics[a];
                pa.apply_impulse(v1r.scale_fx(smul_fx(coeff, m1)));
                physics[a] = pa;
                let mut bb = balls[b];
                bb.body.c = bb.body.c.add(&half);
                balls[b] = bb;
                let mut pb = physics[b];
                pb.apply_impulse(v2r.scale_fx(smul_fx(coeff, m2)));
                physics[b] = pb;
                proof {
                    assert(ball_wf(ba@));
                    assert(ball_wf(bb@));
                }
            }
            k = k + 1;
        }
    }

    /// One frame of collision handling: clear the lists, gather and
    /// classify, then resolve.  Returns the frame's `CollisionEffect`.
    pub fn update(
        &mut self,
        statics: &Vec<Static>,
        balls: &mut Vec<Ball>,
        goal: &Goal,
        physics: &mut Vec<Physics>,
    ) -> (effect: CollisionEffect)
        requires
            old(balls)@.len() == old(physics)@.len(),
            forall|i: int| 0 <= i < old(balls)@.len() ==> ball_wf(#[trigger] old(balls)@[i]@),
            forall|i: int| 0 <= i < statics@.len() ==> static_wf(#[trigger] statics@[i]@),
            goal_wf(goal@),
        ensures
            effect == effect_spec(old(balls)@, statics@, goal@),
            final(self).contacts.wm@ == sort_spec(wm_contacts(old(balls)@, statics@)),
            final(self).contacts.mm@ == sort_spec(mm_contacts(old(balls)@)),
            final(self).coeff_r == old(self).coeff_r,
            final(self).dt == old(self).dt,
            final(balls)@.len() == old(balls)@.len(),
            final(physics)@.len() == old(physics)@.len(),
            forall|i: int| 0 <= i < final(balls)@.len() ==> ball_wf(#[trigger] final(balls)@[i]@),
            ({
                let st = resolve_all(
                    old(balls)@,
                    old(physics)@,
                    statics@,
                    sort_spec(wm_contacts(old(balls)@, statics@)),
                    sort_spec(mm_contacts(old(balls)@)),
                    old(self).coeff_r as int,
                    old(self).dt as int,
                );
                final(balls)@ == st.0 && final(physics)@ == st.1
            }),
    {
        self.contacts.clear();
        let effect = self.gather_contacts(statics, balls, goal);
        proof {
            assert(self.contacts.wm@ =~= wm_contacts(balls@, statics@));
            assert(self.contacts.mm@ =~= mm_contacts(balls@));
            vstd::std_specs::vec::axiom_spec_len(balls);
            vstd::std_specs::vec::axiom_spec_len(statics);
            lemma_wm_rows_wf(balls@, statics@, statics@.len() as int);
            lemma_mm_rows_wf(balls@, balls@.len() as int);
        }
        self.restitute(statics, balls, physics);
        effect
    }
}

/// Law: any ball touching the goal makes the frame's classification
/// `Score`, whatever else overlaps — `Score` takes precedence over
/// `WallCollision` and `BallCollision`.
pub proof fn lemma_score_priority(balls: Seq<Ball>, statics: Seq<Static>, goal: GoalM, k: int)
    requires
        0 <= k < balls.len(),
        sb_touching(balls[k]@.body, goal.body),
    ensures
        effect_spec(balls, statics, goal) == CollisionEffect::Score,
{
    assert(goal_touched(balls, goal));
}

/// Law: resolution is idempotent at rest.  A ball resting exactly tangent
/// to a plane (`dist == r`) with zero momentum is left untouched by one
/// static-contact resolution step: no positional change, no momentum
/// change.
pub proof fn lemma_resolution_idempotent_at_rest(
    balls: Seq<Ball>,
    phys: Seq<Physics>,
    statics: Seq<Static>,
    c: Contact,
    coeff: int,
    dt: int,
)
    requires
        c.a < balls.len(),
        c.b < statics.len(),
        balls.len() == phys.len(),
        ball_wf(balls[c.a as int]@),
        sp_dist(balls[c.a as int]@.body, statics[c.b as int]@.body) == balls[c.a as int]@.body.r,
        phys[c.a as int].momentum == (Vec3 { x: 0, y: 0, z: 0 }),
    ensures
        resolve_static_one(balls, phys, statics, c, coeff, dt).0 == balls,
        resolve_static_one(balls, phys, statics, c, coeff, dt).1 == phys,
{
    let sc = SCALE as int;
    let a = c.a as int;
    let ball = balls[a];
    let pl = statics[c.b as int];
    assert(sp_touching(ball@.body, pl@.body));
    lemma_tdiv_exact(0, sc);
    assert(sat(ball@.body.r - sp_dist(ball@.body, pl@.body)) == 0);
    assert(pl@.body.n.x * 0 == 0 * sc) by (nonlinear_arith);
    assert(pl@.body.n.y * 0 == 0 * sc) by (nonlinear_arith);
    assert(pl@.body.n.z * 0 == 0 * sc) by (nonlinear_arith);
    let disp = sp_disp(ball@.body, pl@.body);
    assert(disp == (V3 { x: 0, y: 0, z: 0 }));
    assert(v3_to_vec(v3_add(ball@.body.c, disp)) == ball.body.c);
    assert(0 * (ball.mass as int) == 0 * sc) by (nonlinear_arith);
    let i1 = v3_scale_fx(disp, ball.mass as int);
    assert(i1 == (V3 { x: 0, y: 0, z: 0 }));
    assert(0 * coeff == 0 * sc) by (nonlinear_arith);
    let i2 = v3_scale_fx(i1, coeff);
    assert(i2 == (V3 { x: 0, y: 0, z: 0 }));
    assert(0 * dt == 0 * sc) by (nonlinear_arith);
    let i3 = v3_scale_fx(i2, dt);
    assert(i3 == (V3 { x: 0, y: 0, z: 0 }));
    assert(v3_to_vec(v3_add(phys[a]@.momentum, i3)) == phys[a].momentum);
    let st = resolve_static_one(balls, phys, statics, c, coeff, dt);
    assert(st.0 =~= balls);
    assert(st.1 =~= phys);
}

/// Law: a whole static-resolution pass is idempotent at rest.  If every
/// contact of the list points at a ball resting exactly tangent to its
/// plane with zero momentum, resolving the whole list changes nothing.
pub proof fn lemma_resolution_pass_idempotent_at_rest(
    balls: Seq<Ball>,
    phys: Seq<Physics>,
    statics: Seq<Static>,
    cs: Seq<Contact>,
    k: int,
    coeff: int,
    dt: int,
)
    requires
        0 <= k <= cs.len(),
        balls.len() == phys.len(),
        forall|i: int|
            0 <= i < cs.len() ==> {
                let c = #[trigger] cs[i];
                &&& c.a < balls.len()
                &&& c.b < statics.len()
                &&& ball_wf(balls[c.a as int]@)
                &&& sp_dist(balls[c.a as int]@.body, statics[c.b as int]@.body) == balls[c.a as int]@.body.r
                &&& phys[c.a as int].momentum == (Vec3 { x: 0, y: 0, z: 0 })
            },
    ensures
        resolve_statics_upto(balls, phys, statics, cs, k, coeff, dt).0 == balls,
        resolve_statics_upto(balls, phys, statics, cs, k, coeff, dt).1 == phys,
    decreases k,
{
    if k > 0 {
        lemma_resolution_pass_idempotent_at_rest(balls, phys, statics, cs, k - 1, coeff, dt);
        lemma_resolution_idempotent_at_rest(balls, phys, statics, cs[k - 1], coeff, dt);
    }
}

/// Law: for two equal unit-mass balls colliding with equal and opposite
/// momenta under restitution `1.0`, one dynamic-contact resolution step
/// negates both momenta (and so both velocities) exactly.
pub proof fn lemma_elastic_head_on(balls: Seq<Ball>, phys: Seq<Physics>, c: Contact)
    requires
        c.a < c.b < balls.len(),
        balls.len() == phys.len(),
        balls[c.a as int].mass == SCALE,
        balls[c.b as int].mass == SCALE,
        ss_overlap(balls[c.a as int]@.body, balls[c.b as int]@.body),
        phys[c.b as int].momentum@ == v3_neg(phys[c.a as int].momentum@),
        -(FX_MAX as int) <= 2 * phys[c.a as int].momentum@.x <= FX_MAX as int,
        -(FX_MAX as int) <= 2 * phys[c.a as int].momentum@.y <= FX_MAX as int,
        -(FX_MAX as int) <= 2 * phys[c.a as int].momentum@.z <= FX_MAX as int,
    ensures
        ({
            let st = resolve_dynamic_one(balls, phys, c, SCALE as int);
            st.1[c.a as int].momentum@ == v3_neg(phys[c.a as int].momentum@)
                && st.1[c.b as int].momentum@ == v3_neg(phys[c.b as int].momentum@)
        }),
{
    let sc = SCALE as int;
    let a = c.a as int;
    let b = c.b as int;
    let px = phys[a].momentum@.x;
    let py = phys[a].momentum@.y;
    let pz = phys[a].momentum@.z;
    lemma_tdiv_exact(sc, sc);
    lemma_tdiv_exact(2 * sc, sc);
    lemma_tdiv_exact(px, sc);
    lemma_tdiv_exact(-px, sc);
    lemma_tdiv_exact(2 * px, sc);
    lemma_tdiv_exact(-2 * px, sc);
    lemma_tdiv_exact(-px, 2 * sc);
    assert((-px) * (2 * sc) == (-2 * px) * sc) by (nonlinear_arith);
    lemma_tdiv_exact(py, sc);
    lemma_tdiv_exact(-py, sc);
    lemma_tdiv_exact(2 * py, sc);
    lemma_tdiv_exact(-2 * py, sc);
    lemma_tdiv_exact(-py, 2 * sc);
    assert((-py) * (2 * sc) == (-2 * py) * sc) by (nonlinear_arith);
    lemma_tdiv_exact(pz, sc);
    lemma_tdiv_exact(-pz, sc);
    lemma_tdiv_exact(2 * pz, sc);
    lemma_tdiv_exact(-2 * pz, sc);
    lemma_tdiv_exact(-pz, 2 * sc);
    assert((-pz) * (2 * sc) == (-2 * pz) * sc) by (nonlinear_arith);
    let st = resolve_dynamic_one(balls, phys, c, sc);
    assert(st.1[a].momentum@ == v3_neg(phys[a].momentum@));
    assert(st.1[b].momentum@ == v3_neg(phys[b].momentum@));
}

} // verus!
