//! The attribute/effect engine: derived numeric stats computed from a base
//! value plus a set of stacked, removable modifier bundles.
//!
//! Every stat is a fixed-point value (see [`crate::fixed`]). A [`Modifier`]
//! contributes one operation to one attribute; an [`Effect`] bundles
//! modifiers under a unique id; [`Attributes`] owns base values, active
//! effects and a memoization cache, and derives each stat by applying all
//! `Add` operations before all `Multiply` operations.

use vstd::prelude::*;

use crate::fixed::{
    mul_down, round_to_i32, round_to_u32, sat_add, spec_mul_down, spec_round_to_i32,
    spec_round_to_u32, spec_sat_add,
};

verus! {

/// A key type usable to index attributes: plain copyable values whose
/// executable equality decides structural equality.
pub trait AttributeKey: Sized + Copy {
    /// Decides whether two keys are the same attribute.
    fn key_eq(&self, other: &Self) -> (r: bool)
        ensures
            r == (self == other),
    ;
}

/// A single change to one attribute value: either a fixed-point offset or a
/// fixed-point factor.
#[derive(Debug, Clone, Copy, PartialEq, Eq, Structural)]
pub enum Operation {
    /// Adds the given fixed-point amount (saturating).
    Add(i64),
    /// Multiplies by the given fixed-point factor (scaled down, saturating).
    Multiply(i64),
}

impl Operation {
    /// The value an operation turns `v` into.
    pub open spec fn spec_apply(self, v: i64) -> i64 {
        match self {
            Operation::Add(x) => spec_sat_add(v, x),
            Operation::Multiply(x) => spec_mul_down(v, x),
        }
    }

    /// Applies the operation to the running accumulator.
    fn apply(&self, val: &mut i64)
        ensures
            *final(val) == self.spec_apply(*old(val)),
    {
        match self {
            Operation::Add(x) => {
                *val = sat_add(*val, *x);
            },
            Operation::Multiply(x) => {
                *val = mul_down(*val, *x);
            },
        }
    }

    /// Whether this is an `Add` operation; all `Add`s apply before all
    /// `Multiply`s.
    pub open spec fn is_add(self) -> bool {
        self is Add
    }
}

/// One modifier inside an effect: the attribute it targets and the operation
/// it contributes.
#[derive(Debug, Clone, Copy)]
pub struct Modifier<A> {
    /// The attribute the operation applies to.
    pub attribute: A,
    /// The contributed operation.
    pub operation: Operation,
}

/// Relies on `uuid::Uuid::new_v4` for a freshly drawn random 128-bit id,
/// read out with `uuid::Uuid::as_u128`. Nothing is assumed of the value.
/// `new_v4` aborts the process if the operating system's randomness source
/// fails; that is environmental and triggered by no input.
#[verifier::external_body]
fn fresh_effect_id() -> (r: u128) {
    uuid::Uuid::new_v4().as_u128()
}

/// An identified, removable bundle of modifiers. Once applied it stays
/// active until removed by its id.
#[derive(Debug, Clone)]
pub struct Effect<A> {
    id: u128,
    modifiers: Vec<Modifier<A>>,
}

impl<A> Effect<A> {
    /// The effect's unique id.
    pub closed spec fn spec_id(&self) -> u128 {
        self.id
    }

    /// The effect's modifiers, in insertion order.
    pub closed spec fn mods(&self) -> Seq<Modifier<A>> {
        self.modifiers@
    }

    /// Builds an empty effect under a freshly drawn id.
    pub fn new() -> (r: Effect<A>)
        ensures
            r.mods() =~= Seq::<Modifier<A>>::empty(),
    {
        Effect { id: fresh_effect_id(), modifiers: Vec::new() }
    }

    /// Returns the effect's id, for a later [`Attributes::remove_effect`].
    pub fn get_id(&self) -> (r: u128)
        ensures
            r == self.spec_id(),
    {
        self.id
    }

    /// Appends one modifier to the bundle.
    pub fn add_modifier(&mut self, attribute: A, operation: Operation)
        ensures
            final(self).mods() == old(self).mods().push(Modifier { attribute, operation }),
            final(self).spec_id() == old(self).spec_id(),
    {
        self.modifiers.push(Modifier { attribute, operation });
    }
}

/// Whether any modifier of `mods` targets the attribute `k`.
pub open spec fn mods_touch<A>(mods: Seq<Modifier<A>>, k: A) -> bool {
    exists|i: int| 0 <= i < mods.len() && mods[i].attribute == k
}

/// The operations that `mods` contributes to the attribute `k`, in order.
pub open spec fn ops_of_mods<A>(mods: Seq<Modifier<A>>, k: A) -> Seq<Operation>
    decreases mods.len(),
{
    if mods.len() == 0 {
        Seq::empty()
    } else {
        let rest = ops_of_mods(mods.drop_last(), k);
        if mods.last().attribute == k {
            rest.push(mods.last().operation)
        } else {
            rest
        }
    }
}

/// The operations that a sequence of effects contributes to the attribute
/// `k`, in effect order then modifier order.
pub open spec fn ops_for<A>(effects: Seq<Effect<A>>, k: A) -> Seq<Operation>
    decreases effects.len(),
{
    if effects.len() == 0 {
        Seq::empty()
    } else {
        ops_for(effects.drop_last(), k) + ops_of_mods(effects.last().mods(), k)
    }
}

/// The `Add` operations of `ops`, in order.
pub open spec fn adds_of(ops: Seq<Operation>) -> Seq<Operation>
    decreases ops.len(),
{
    if ops.len() == 0 {
        Seq::empty()
    } else {
        let rest = adds_of(ops.drop_last());
        if ops.last().is_add() {
            rest.push(ops.last())
        } else {
            rest
        }
    }
}

/// The `Multiply` operations of `ops`, in order.
pub open spec fn muls_of(ops: Seq<Operation>) -> Seq<Operation>
    decreases ops.len(),
{
    if ops.len() == 0 {
        Seq::empty()
    } else {
        let rest = muls_of(ops.drop_last());
        if !ops.last().is_add() {
            rest.push(ops.last())
        } else {
            rest
        }
    }
}

/// Folds the operations over `v`, left to right.
pub open spec fn eval_ops(v: i64, ops: Seq<Operation>) -> i64
    decreases ops.len(),
{
    if ops.len() == 0 {
        v
    } else {
        ops.last().spec_apply(eval_ops(v, ops.drop_last()))
    }
}

/// The value derived from base `v` by the operations `ops`: all `Add`s apply
/// first, then all `Multiply`s, each group in its given order.
pub open spec fn eval_sorted(v: i64, ops: Seq<Operation>) -> i64 {
    eval_ops(eval_ops(v, adds_of(ops)), muls_of(ops))
}

/// First-match lookup in an association list.
pub open spec fn assoc_get<A>(s: Seq<(A, i64)>, k: A) -> Option<i64>
    decreases s.len(),
{
    if s.len() == 0 {
        None
    } else if s.first().0 == k {
        Some(s.first().1)
    } else {
        assoc_get(s.drop_first(), k)
    }
}

/// The effects of `s` that do not carry the id `id`, in order.
pub open spec fn remove_id<A>(s: Seq<Effect<A>>, id: u128) -> Seq<Effect<A>>
    decreases s.len(),
{
    if s.len() == 0 {
        Seq::empty()
    } else {
        let rest = remove_id(s.drop_last(), id);
        if s.last().spec_id() == id {
            rest
        } else {
            rest.push(s.last())
        }
    }
}

/// The effects of `s` that carry the id `id`, in order.
pub open spec fn with_id<A>(s: Seq<Effect<A>>, id: u128) -> Seq<Effect<A>>
    decreases s.len(),
{
    if s.len() == 0 {
        Seq::empty()
    } else {
        let rest = with_id(s.drop_last(), id);
        if s.last().spec_id() == id {
            rest.push(s.last())
        } else {
            rest
        }
    }
}

pub(crate) proof fn lemma_take_step<T>(s: Seq<T>, i: int)
    requires
        0 <= i < s.len(),
    ensures
        s.take(i + 1).drop_last() =~= s.take(i),
        s.take(i + 1).last() == s[i],
{
}

proof fn lemma_skip_step<T>(s: Seq<T>, i: int)
    requires
        0 <= i < s.len(),
    ensures
        s.skip(i).drop_first() =~= s.skip(i + 1),
        s.skip(i).first() == s[i],
        s.skip(i).len() == s.len() - i,
{
}

/// An association list with no entry for `k` resolves `k` to `None`.
proof fn lemma_assoc_no_match<A>(s: Seq<(A, i64)>, k: A)
    requires
        forall|j: int| 0 <= j < s.len() ==> (#[trigger] s[j]).0 != k,
    ensures
        assoc_get(s, k) is None,
    decreases s.len(),
{
    if s.len() > 0 {
        lemma_assoc_no_match(s.drop_first(), k);
    }
}

/// The first entry for `k` decides the lookup.
proof fn lemma_assoc_first_match<A>(s: Seq<(A, i64)>, i: int, k: A)
    requires
        0 <= i < s.len(),
        s[i].0 == k,
        forall|j: int| 0 <= j < i ==> (#[trigger] s[j]).0 != k,
    ensures
        assoc_get(s, k) == Some(s[i].1),
    decreases i,
{
    if i > 0 {
        lemma_assoc_first_match(s.drop_first(), i - 1, k);
    }
}

/// Overwriting the value of the first entry for `k` changes the lookup for
/// `k` to the new value and leaves every other key's lookup unchanged.
proof fn lemma_assoc_update_first<A>(s: Seq<(A, i64)>, i: int, k: A, v: i64)
    requires
        0 <= i < s.len(),
        s[i].0 == k,
        forall|j: int| 0 <= j < i ==> (#[trigger] s[j]).0 != k,
    ensures
        assoc_get(s.update(i, (k, v)), k) == Some(v),
        forall|k2: A| k2 != k ==> assoc_get(s.update(i, (k, v)), k2) == assoc_get(s, k2),
    decreases i,
{
    let s2 = s.update(i, (k, v));
    if i == 0 {
        assert(s2.first() == (k, v));
        assert forall|k2: A| k2 != k implies assoc_get(s2, k2) == assoc_get(s, k2) by {
            assert(s2.drop_first() =~= s.drop_first());
        }
    } else {
        assert(s2.first() == s.first());
        assert(s2.drop_first() =~= s.drop_first().update(i - 1, (k, v)));
        lemma_assoc_update_first(s.drop_first(), i - 1, k, v);
        assert(s.first().0 != k);
        assert forall|k2: A| k2 != k implies assoc_get(s2, k2) == assoc_get(s, k2) by {
            if s.first().0 != k2 {
                assert(assoc_get(s.drop_first().update(i - 1, (k, v)), k2) == assoc_get(
                    s.drop_first(),
                    k2,
                ));
            }
        }
    }
}

/// Appending an entry resolves its key where the list had none, and leaves
/// every other key's lookup unchanged.
proof fn lemma_assoc_push<A>(s: Seq<(A, i64)>, p: (A, i64), k2: A)
    ensures
        assoc_get(s.push(p), k2) == if assoc_get(s, k2) is Some {
            assoc_get(s, k2)
        } else if p.0 == k2 {
            Some(p.1)
        } else {
            None
        },
    decreases s.len(),
{
    if s.len() == 0 {
        assert(s.push(p)[0] == p);
        assert(s.push(p).drop_first() =~= Seq::<(A, i64)>::empty());
        assert(assoc_get(s, k2) is None);
        assert(s.push(p).first() == p);
        if p.0 == k2 {
            assert(assoc_get(s.push(p), k2) == Some(p.1));
        } else {
            assert(assoc_get(s.push(p), k2) == assoc_get(s.push(p).drop_first(), k2));
            assert(assoc_get(s.push(p), k2) is None);
        }
    } else {
        assert(s.push(p)[0] == s[0]);
        assert(s.push(p).first() == s.first());
        assert(s.push(p).drop_first() =~= s.drop_first().push(p));
        lemma_assoc_push(s.drop_first(), p, k2);
        if s.first().0 == k2 {
            assert(assoc_get(s.push(p), k2) == Some(s.first().1));
            assert(assoc_get(s, k2) == Some(s.first().1));
        } else {
            assert(assoc_get(s.push(p), k2) == assoc_get(s.drop_first().push(p), k2));
            assert(assoc_get(s, k2) == assoc_get(s.drop_first(), k2));
        }
    }
}

/// A modifier list that never targets `k` contributes no operations to `k`.
proof fn lemma_ops_of_mods_untouched<A>(mods: Seq<Modifier<A>>, k: A)
    requires
        !mods_touch(mods, k),
    ensures
        ops_of_mods(mods, k) =~= Seq::<Operation>::empty(),
    decreases mods.len(),
{
    if mods.len() > 0 {
        assert(mods.last().attribute != k);
        assert(!mods_touch(mods.drop_last(), k)) by {
            if mods_touch(mods.drop_last(), k) {
                let i = choose|i: int|
                    0 <= i < mods.drop_last().len() && mods.drop_last()[i].attribute == k;
                assert(mods[i].attribute == k);
            }
        }
        lemma_ops_of_mods_untouched(mods.drop_last(), k);
    }
}

/// Appending an effect appends its contribution to every attribute.
proof fn lemma_ops_for_push<A>(s: Seq<Effect<A>>, e: Effect<A>, k: A)
    ensures
        ops_for(s.push(e), k) == ops_for(s, k) + ops_of_mods(e.mods(), k),
{
    assert(s.push(e).drop_last() =~= s);
    assert(s.push(e).last() == e);
}

/// Dropping only effects that do not touch `k` leaves the operations for `k`
/// unchanged.
proof fn lemma_ops_for_remove_untouched<A>(s: Seq<Effect<A>>, id: u128, k: A)
    requires
        forall|i: int| 0 <= i < s.len() && (#[trigger] s[i]).spec_id() == id ==> !mods_touch(
            s[i].mods(),
            k,
        ),
    ensures
        ops_for(remove_id(s, id), k) == ops_for(s, k),
    decreases s.len(),
{
    if s.len() > 0 {
        let rest = s.drop_last();
        assert(forall|i: int|
            0 <= i < rest.len() && (#[trigger] rest[i]).spec_id() == id ==> !mods_touch(
                rest[i].mods(),
                k,
            )) by {
            assert(forall|i: int| 0 <= i < rest.len() ==> rest[i] == s[i]);
        }
        lemma_ops_for_remove_untouched(rest, id, k);
        if s.last().spec_id() == id {
            assert(s.last() == s[s.len() - 1]);
            lemma_ops_of_mods_untouched(s.last().mods(), k);
            assert(ops_for(s, k) =~= ops_for(rest, k) + ops_of_mods(s.last().mods(), k));
            assert(ops_for(rest, k) + Seq::<Operation>::empty() =~= ops_for(rest, k));
        } else {
            lemma_ops_for_push(remove_id(rest, id), s.last(), k);
            assert(remove_id(s, id) == remove_id(rest, id).push(s.last()));
        }
    }
}

/// Every effect of `s` carrying `id` appears among `with_id(s, id)`.
proof fn lemma_with_id_contains<A>(s: Seq<Effect<A>>, id: u128, i: int)
    requires
        0 <= i < s.len(),
        s[i].spec_id() == id,
    ensures
        with_id(s, id).contains(s[i]),
    decreases s.len(),
{
    if i == s.len() - 1 {
        assert(with_id(s, id).last() == s[i]);
    } else {
        lemma_with_id_contains(s.drop_last(), id, i);
        let w = with_id(s.drop_last(), id);
        let j = choose|j: int| 0 <= j < w.len() && w[j] == s.drop_last()[i];
        if s.last().spec_id() == id {
            assert(with_id(s, id)[j] == s[i]);
        } else {
            assert(with_id(s, id)[j] == s[i]);
        }
    }
}

/// No effect of `remove_id(s, id)` carries `id`.
proof fn lemma_remove_id_members<A>(s: Seq<Effect<A>>, id: u128)
    ensures
        forall|j: int|
            0 <= j < remove_id(s, id).len() ==> (#[trigger] remove_id(s, id)[j]).spec_id() != id,
    decreases s.len(),
{
    if s.len() > 0 {
        lemma_remove_id_members(s.drop_last(), id);
        let rest = remove_id(s.drop_last(), id);
        assert forall|j: int| 0 <= j < remove_id(s, id).len() implies (#[trigger] remove_id(
            s,
            id,
        )[j]).spec_id() != id by {
            if s.last().spec_id() != id {
                assert(remove_id(s, id) == rest.push(s.last()));
                if j < rest.len() {
                    assert(remove_id(s, id)[j] == rest[j]);
                    assert(rest[j].spec_id() != id);
                } else {
                    assert(remove_id(s, id)[j] == s.last());
                }
            } else {
                assert(remove_id(s, id) == rest);
                assert(rest[j].spec_id() != id);
            }
        }
    }
}

/// Removing an id that no effect carries changes nothing.
proof fn lemma_remove_id_fresh<A>(s: Seq<Effect<A>>, id: u128)
    requires
        forall|i: int| 0 <= i < s.len() ==> (#[trigger] s[i]).spec_id() != id,
    ensures
        remove_id(s, id) =~= s,
    decreases s.len(),
{
    if s.len() > 0 {
        assert(forall|i: int| 0 <= i < s.drop_last().len() ==> s.drop_last()[i] == s[i]);
        lemma_remove_id_fresh(s.drop_last(), id);
        assert(s.last() == s[s.len() - 1]);
        assert(remove_id(s, id) =~= s.drop_last().push(s.last()));
    }
}

/// Partitioning a two-operation sequence of one `Add` and one `Multiply`
/// yields the `Add` then the `Multiply`, whichever order they stood in.
proof fn lemma_partition_two(x: Operation, y: Operation)
    requires
        x.is_add(),
        !y.is_add(),
    ensures
        adds_of(seq![x, y]) =~= seq![x],
        muls_of(seq![x, y]) =~= seq![y],
        adds_of(seq![y, x]) =~= seq![x],
        muls_of(seq![y, x]) =~= seq![y],
{
    let e0 = Seq::<Operation>::empty();
    assert(adds_of(e0) =~= e0);
    assert(muls_of(e0) =~= e0);
    let sx = seq![x];
    assert(sx.drop_last() =~= e0);
    assert(sx.last() == x);
    assert(adds_of(sx) =~= seq![x]);
    assert(muls_of(sx) =~= e0);
    let sy = seq![y];
    assert(sy.drop_last() =~= e0);
    assert(sy.last() == y);
    assert(adds_of(sy) =~= e0);
    assert(muls_of(sy) =~= seq![y]);
    let sxy = seq![x, y];
    assert(sxy.drop_last() =~= sx);
    assert(sxy.last() == y);
    assert(adds_of(sxy) =~= seq![x]);
    assert(muls_of(sxy) =~= seq![y]);
    let syx = seq![y, x];
    assert(syx.drop_last() =~= sy);
    assert(syx.last() == x);
    assert(adds_of(syx) =~= seq![x]);
    assert(muls_of(syx) =~= seq![y]);
}

/// Law: all `Add`s apply before all `Multiply`s. Where exactly one `Add(a)`
/// and one `Multiply(m)` target the attribute `k`, the derived value is
/// `(base + a) * m` in fixed point, whichever order the two modifiers were
/// contributed in.
pub proof fn lemma_add_before_multiply<A>(st: Attributes<A>, k: A, a: i64, m: i64)
    requires
        ops_for(st.effects_seq(), k) =~= seq![Operation::Add(a), Operation::Multiply(m)]
            || ops_for(st.effects_seq(), k) =~= seq![
            Operation::Multiply(m),
            Operation::Add(a),
        ],
    ensures
        st.spec_get(k) == spec_mul_down(spec_sat_add(st.spec_base(k), a), m),
{
    let ops = ops_for(st.effects_seq(), k);
    let b = st.spec_base(k);
    lemma_partition_two(Operation::Add(a), Operation::Multiply(m));
    let sa = seq![Operation::Add(a)];
    let sm = seq![Operation::Multiply(m)];
    assert(adds_of(ops) =~= sa);
    assert(muls_of(ops) =~= sm);
    assert(sa.drop_last() =~= Seq::<Operation>::empty());
    assert(sa.last() == Operation::Add(a));
    assert(sm.drop_last() =~= Seq::<Operation>::empty());
    assert(sm.last() == Operation::Multiply(m));
    assert(eval_ops(b, Seq::<Operation>::empty()) == b);
    assert(eval_ops(b, sa) == spec_sat_add(b, a));
    let ba = spec_sat_add(b, a);
    assert(eval_ops(ba, Seq::<Operation>::empty()) == ba);
    assert(eval_ops(ba, sm) == spec_mul_down(ba, m));
    assert(eval_ops(b, adds_of(ops)) == ba);
    assert(eval_ops(ba, muls_of(ops)) == spec_mul_down(ba, m));
}

/// Law: cache coherence under apply and remove. Applying an effect under a
/// fresh id appends exactly its operations to every attribute it touches,
/// and removing that id afterwards restores every derived value to what it
/// was before the apply. The three states are one store before the apply,
/// after the apply, and after the remove, related by the contracts of
/// [`Attributes::apply_effect`] and [`Attributes::remove_effect`].
pub proof fn lemma_apply_then_remove<A>(
    st0: Attributes<A>,
    st1: Attributes<A>,
    st2: Attributes<A>,
    e: Effect<A>,
    k: A,
)
    requires
        forall|i: int|
            0 <= i < st0.effects_seq().len() ==> (#[trigger] st0.effects_seq()[i]).spec_id()
                != e.spec_id(),
        st1.base_seq() == st0.base_seq(),
        st1.effects_seq() == remove_id(st0.effects_seq(), e.spec_id()).push(e),
        st2.base_seq() == st1.base_seq(),
        st2.effects_seq() == remove_id(st1.effects_seq(), e.spec_id()),
    ensures
        st1.spec_get(k) == eval_sorted(
            st0.spec_base(k),
            ops_for(st0.effects_seq(), k) + ops_of_mods(e.mods(), k),
        ),
        st2.spec_get(k) == st0.spec_get(k),
{
    let s = st0.effects_seq();
    let id = e.spec_id();
    lemma_remove_id_fresh(s, id);
    assert(st1.effects_seq() == s.push(e));
    lemma_ops_for_push(s, e, k);
    assert(st1.spec_base(k) == st0.spec_base(k));

    assert(s.push(e).drop_last() =~= s);
    assert(s.push(e).last() == e);
    assert(remove_id(s.push(e), id) == remove_id(s, id));
    assert(st2.effects_seq() == s);
    assert(st2.spec_base(k) == st0.spec_base(k));
}

/// Law: idempotent removal. Removing an id twice leaves the active effects
/// exactly as one removal does, and removing an id that no active effect
/// carries changes nothing, so a second or unmatched `remove_effect` call
/// leaves the store's model unchanged.
pub proof fn lemma_remove_idempotent<A>(s: Seq<Effect<A>>, id: u128)
    ensures
        remove_id(remove_id(s, id), id) =~= remove_id(s, id),
        (forall|i: int| 0 <= i < s.len() ==> (#[trigger] s[i]).spec_id() != id) ==> remove_id(
            s,
            id,
        ) =~= s,
{
    lemma_remove_id_members(s, id);
    lemma_remove_id_fresh(remove_id(s, id), id);
    if forall|i: int| 0 <= i < s.len() ==> (#[trigger] s[i]).spec_id() != id {
        lemma_remove_id_fresh(s, id);
    }
}

/// Law: default base. With no active effects, an attribute without a base
/// entry derives zero.
pub proof fn lemma_unset_key_defaults_to_zero<A>(st: Attributes<A>, k: A)
    requires
        st.effects_seq() =~= Seq::<Effect<A>>::empty(),
        assoc_get(st.base_seq(), k) is None,
    ensures
        st.spec_get(k) == 0,
{
    assert(ops_for(st.effects_seq(), k) =~= Seq::<Operation>::empty());
    assert(adds_of(Seq::<Operation>::empty()) =~= Seq::<Operation>::empty());
    assert(muls_of(Seq::<Operation>::empty()) =~= Seq::<Operation>::empty());
}

/// The per-entity attribute store: base values, active effects, and a
/// memoization cache that is kept coherent with both.
pub struct Attributes<A> {
    base: Vec<(A, i64)>,
    temporary_effects: Vec<Effect<A>>,
    cache: Vec<(A, i64)>,
}

impl<A> Attributes<A> {
    /// The base entries, in insertion order.
    pub closed spec fn base_seq(&self) -> Seq<(A, i64)> {
        self.base@
    }

    /// The active effects, in application order.
    pub closed spec fn effects_seq(&self) -> Seq<Effect<A>> {
        self.temporary_effects@
    }

    closed spec fn cache_seq(&self) -> Seq<(A, i64)> {
        self.cache@
    }

    /// The base value of `k`: its stored base entry, or zero when unset.
    pub open spec fn spec_base(&self, k: A) -> i64 {
        match assoc_get(self.base_seq(), k) {
            Some(v) => v,
            None => 0,
        }
    }

    /// The derived value of `k`: the base value with every active modifier
    /// applied, all `Add`s before all `Multiply`s.
    pub open spec fn spec_get(&self, k: A) -> i64 {
        eval_sorted(self.spec_base(k), ops_for(self.effects_seq(), k))
    }

    /// Every cache entry records the derived value of its key.
    pub closed spec fn wf(&self) -> bool {
        forall|j: int|
            0 <= j < self.cache@.len() ==> (#[trigger] self.cache@[j]).1 == self.spec_get(
                self.cache@[j].0,
            )
    }

    /// Builds an empty attribute store: no bases, no effects, empty cache.
    pub fn new() -> (r: Attributes<A>)
        ensures
            r.wf(),
            r.base_seq() =~= Seq::<(A, i64)>::empty(),
            r.effects_seq() =~= Seq::<Effect<A>>::empty(),
    {
        Attributes { base: Vec::new(), temporary_effects: Vec::new(), cache: Vec::new() }
    }
}

impl<A> Default for Attributes<A> {
    /// Same as [`Attributes::new`].
    fn default() -> (r: Attributes<A>)
        ensures
            r.wf(),
            r.base_seq() =~= Seq::<(A, i64)>::empty(),
            r.effects_seq() =~= Seq::<Effect<A>>::empty(),
    {
        Attributes::new()
    }
}

/// Index of the first entry for key `k`, if any.
fn find_key<A: AttributeKey>(entries: &Vec<(A, i64)>, k: &A) -> (r: Option<usize>)
    ensures
        match r {
            Some(i) => i < entries@.len() && entries@[i as int].0 == *k && forall|j: int|
                0 <= j < i ==> (#[trigger] entries@[j]).0 != *k,
            None => forall|j: int| 0 <= j < entries@.len() ==> (#[trigger] entries@[j]).0 != *k,
        },
{
    let n = entries.len();
    let mut i: usize = 0;
    while i < n
        invariant
            i <= n,
            n == entries@.len(),
            forall|j: int| 0 <= j < i ==> (#[trigger] entries@[j]).0 != *k,
        decreases n - i,
    {
        if entries[i].0.key_eq(k) {
            return Some(i);
        }
        i = i + 1;
    }
    None
}

/// Whether any modifier of `e` targets the attribute `k`.
fn effect_touches<A: AttributeKey>(e: &Effect<A>, k: &A) -> (r: bool)
    ensures
        r == mods_touch(e.mods(), *k),
{
    let n = e.modifiers.len();
    let mut i: usize = 0;
    while i < n
        invariant
            i <= n,
            n == e.modifiers@.len(),
            forall|j: int| 0 <= j < i ==> (#[trigger] e.modifiers@[j]).attribute != *k,
        decreases n - i,
    {
        if e.modifiers[i].attribute.key_eq(k) {
            return true;
        }
        i = i + 1;
    }
    false
}

/// Whether any effect of `es` touches the attribute `k`.
fn any_touches<A: AttributeKey>(es: &Vec<Effect<A>>, k: &A) -> (r: bool)
    ensures
        r == exists|i: int| 0 <= i < es@.len() && mods_touch((#[trigger] es@[i]).mods(), *k),
{
    let n = es.len();
    let mut i: usize = 0;
    while i < n
        invariant
            i <= n,
            n == es@.len(),
            forall|j: int| 0 <= j < i ==> !mods_touch((#[trigger] es@[j]).mods(), *k),
        decreases n - i,
    {
        if effect_touches(&es[i], k) {
            return true;
        }
        i = i + 1;
    }
    false
}

impl<A: AttributeKey> Attributes<A> {
    /// Sets (or overwrites) the base value for `attr` and drops the cache
    /// entry for `attr`, so later reads stay coherent.
    pub fn set_base(&mut self, attr: A, value: i64)
        requires
            old(self).wf(),
        ensures
            final(self).wf(),
            final(self).effects_seq() == old(self).effects_seq(),
            final(self).spec_base(attr) == value,
            forall|k2: A| k2 != attr ==> final(self).spec_base(k2) == old(self).spec_base(k2),
    {
        match find_key(&self.base, &attr) {
            Some(i) => {
                proof {
                    lemma_assoc_update_first(self.base@, i as int, attr, value);
                }
                let entry = &mut self.base[i];
                *entry = (attr, value);
            },
            None => {
                proof {
                    lemma_assoc_no_match(self.base@, attr);
                    assert forall|k2: A| true implies assoc_get(self.base@.push((attr, value)), k2)
                        == if assoc_get(self.base@, k2) is Some {
                        assoc_get(self.base@, k2)
                    } else if k2 == attr {
                        Some(value)
                    } else {
                        None
                    } by {
                        lemma_assoc_push(self.base@, (attr, value), k2);
                    }
                }
                self.base.push((attr, value));
            },
        }
        self.prune_cache_for_key(&attr);
        proof {
            let pre = *old(self);
            assert forall|j: int| 0 <= j < self.cache@.len() implies (#[trigger] self.cache@[j]).1
                == self.spec_get(self.cache@[j].0) by {
                let p = self.cache@[j];
                assert(self.cache_seq()[j] == p);
                assert(pre.cache@.contains(p) && p.0 != attr);
                let idx = choose|idx: int| 0 <= idx < pre.cache@.len() && pre.cache@[idx] == p;
                assert(pre.cache@[idx].1 == pre.spec_get(pre.cache@[idx].0));
                assert(assoc_get(self.base@, p.0) == assoc_get(pre.base@, p.0));
                assert(self.spec_base(p.0) == pre.spec_base(p.0));
                assert(self.effects_seq() == pre.effects_seq());
            }
        }
    }

    /// Reads the base value for `attr`; an unset key reads as zero.
    pub fn get_base(&self, attr: A) -> (r: i64)
        ensures
            r == self.spec_base(attr),
    {
        match find_key(&self.base, &attr) {
            Some(i) => {
                proof {
                    lemma_assoc_first_match(self.base@, i as int, attr);
                }
                self.base[i].1
            },
            None => {
                proof {
                    lemma_assoc_no_match(self.base@, attr);
                }
                0
            },
        }
    }

    /// Registers `effect`, replacing any previously applied effect under the
    /// same id, and drops the cache entries of every attribute the effect
    /// (old or new) touches. The effect stays active until removed by id.
    pub fn apply_effect(&mut self, effect: Effect<A>)
        requires
            old(self).wf(),
        ensures
            final(self).wf(),
            final(self).base_seq() == old(self).base_seq(),
            final(self).effects_seq() == remove_id(
                old(self).effects_seq(),
                effect.spec_id(),
            ).push(effect),
    {
        let ghost s = self.effects_seq();
        let ghost eid = effect.spec_id();
        let removed = self.extract_id(effect.get_id());
        let ghost cache0 = self.cache_seq();
        self.prune_cache_touched_any(&removed);
        let ghost cache1 = self.cache_seq();
        self.prune_cache_touched_one(&effect);
        let ghost cache2 = self.cache_seq();
        self.temporary_effects.push(effect);
        proof {
            let pre = *old(self);
            assert(self.effects_seq() == remove_id(s, eid).push(effect));
            assert(self.cache@ == cache2);
            assert forall|j: int| 0 <= j < self.cache@.len() implies (#[trigger] self.cache@[j]).1
                == self.spec_get(self.cache@[j].0) by {
                let p = self.cache@[j];
                assert(cache2[j] == p);
                let i1 = choose|i1: int| 0 <= i1 < cache1.len() && cache1[i1] == p;
                assert(cache1[i1] == p);
                let i0 = choose|i0: int| 0 <= i0 < cache0.len() && cache0[i0] == p;
                assert(pre.cache@[i0] == p);
                assert(p.1 == pre.spec_get(p.0));
                let k = p.0;
                assert forall|ii: int|
                    0 <= ii < s.len() && (#[trigger] s[ii]).spec_id() == eid implies !mods_touch(
                    s[ii].mods(),
                    k,
                ) by {
                    lemma_with_id_contains(s, eid, ii);
                    let j2 = choose|j2: int|
                        0 <= j2 < removed@.len() && removed@[j2] == s[ii];
                    assert(!mods_touch(removed@[j2].mods(), k));
                }
                lemma_ops_for_remove_untouched(s, eid, k);
                lemma_ops_for_push(remove_id(s, eid), effect, k);
                lemma_ops_of_mods_untouched(effect.mods(), k);
                assert(ops_for(remove_id(s, eid), k) + Seq::<Operation>::empty() =~= ops_for(
                    remove_id(s, eid),
                    k,
                ));
                assert(ops_for(self.effects_seq(), k) == ops_for(s, k));
                assert(self.spec_base(k) == pre.spec_base(k));
            }
        }
    }

    /// Removes the effect registered under `id`, if any, and drops the cache
    /// entries of every attribute it touched. Removing an unknown id leaves
    /// the store unchanged.
    pub fn remove_effect(&mut self, id: u128)
        requires
            old(self).wf(),
        ensures
            final(self).wf(),
            final(self).base_seq() == old(self).base_seq(),
            final(self).effects_seq() == remove_id(old(self).effects_seq(), id),
    {
        let ghost s = self.effects_seq();
        let removed = self.extract_id(id);
        let ghost cache0 = self.cache_seq();
        self.prune_cache_touched_any(&removed);
        proof {
            let pre = *old(self);
            assert forall|j: int| 0 <= j < self.cache@.len() implies (#[trigger] self.cache@[j]).1
                == self.spec_get(self.cache@[j].0) by {
                let p = self.cache@[j];
                assert(self.cache_seq()[j] == p);
                let i0 = choose|i0: int| 0 <= i0 < cache0.len() && cache0[i0] == p;
                assert(pre.cache@[i0] == p);
                assert(p.1 == pre.spec_get(p.0));
                let k = p.0;
                assert forall|ii: int|
                    0 <= ii < s.len() && (#[trigger] s[ii]).spec_id() == id implies !mods_touch(
                    s[ii].mods(),
                    k,
                ) by {
                    lemma_with_id_contains(s, id, ii);
                    let j2 = choose|j2: int|
                        0 <= j2 < removed@.len() && removed@[j2] == s[ii];
                    assert(!mods_touch(removed@[j2].mods(), k));
                }
                lemma_ops_for_remove_untouched(s, id, k);
                assert(ops_for(self.effects_seq(), k) == ops_for(s, k));
                assert(self.spec_base(k) == pre.spec_base(k));
            }
        }
    }

    /// Derives the value of `attr`: the cached value when one is present,
    /// else the base value with every active modifier applied, all `Add`s
    /// before all `Multiply`s, memoized for later reads.
    pub fn get(&mut self, attr: A) -> (r: i64)
        requires
            old(self).wf(),
        ensures
            final(self).wf(),
            final(self).base_seq() == old(self).base_seq(),
            final(self).effects_seq() == old(self).effects_seq(),
            r == old(self).spec_get(attr),
    {
        match find_key(&self.cache, &attr) {
            Some(ci) => {
                proof {
                    assert(self.cache@[ci as int].1 == self.spec_get(self.cache@[ci as int].0));
                }
                self.cache[ci].1
            },
            None => {
                let base_val = self.get_base(attr);
                let ghost s = self.effects_seq();

                // Gather every operation targeting `attr`, in effect order
                // then modifier order.
                let n = self.temporary_effects.len();
                let mut operations: Vec<Operation> = Vec::new();
                let mut i: usize = 0;
                while i < n
                    invariant
                        i <= n,
                        n == s.len(),
                        self.temporary_effects@ == s,
                        operations@ == ops_for(s.take(i as int), attr),
                    decreases n - i,
                {
                    let e = &self.temporary_effects[i];
                    proof {
                        assert(e.mods() == s[i as int].mods());
                    }
                    let m = e.modifiers.len();
                    let mut jj: usize = 0;
                    while jj < m
                        invariant
                            jj <= m,
                            m == e.modifiers@.len(),
                            e.mods() == s[i as int].mods(),
                            0 <= i < s.len(),
                            operations@ == ops_for(s.take(i as int), attr) + ops_of_mods(
                                e.modifiers@.take(jj as int),
                                attr,
                            ),
                        decreases m - jj,
                    {
                        proof {
                            lemma_take_step(e.modifiers@, jj as int);
                        }
                        let md = &e.modifiers[jj];
                        if md.attribute.key_eq(&attr) {
                            operations.push(md.operation);
                        }
                        jj = jj + 1;
                    }
                    proof {
                        assert(e.modifiers@.take(m as int) =~= e.modifiers@);
                        lemma_take_step(s, i as int);
                        assert(ops_for(s.take(i as int + 1), attr) == ops_for(s.take(i as int), attr)
                            + ops_of_mods(s[i as int].mods(), attr));
                    }
                    i = i + 1;
                }
                proof {
                    assert(s.take(n as int) =~= s);
                }

                // Apply every `Add`, then every `Multiply`, left to right.
                let ghost ops = operations@;
                let total = operations.len();
                let mut value = base_val;
                let mut ai: usize = 0;
                while ai < total
                    invariant
                        ai <= total,
                        total == ops.len(),
                        operations@ == ops,
                        value == eval_ops(base_val, adds_of(ops.take(ai as int))),
                    decreases total - ai,
                {
                    proof {
                        lemma_take_step(ops, ai as int);
                    }
                    let op = operations[ai];
                    match op {
                        Operation::Add(_) => {
                            op.apply(&mut value);
                        },
                        Operation::Multiply(_) => {},
                    }
                    proof {
                        let prev = ops.take(ai as int);
                        let cur = ops.take(ai as int + 1);
                        if op.is_add() {
                            assert(adds_of(prev).push(op).drop_last() =~= adds_of(prev));
                            assert(adds_of(prev).push(op).last() == op);
                            assert(adds_of(cur) == adds_of(prev).push(op));
                        } else {
                            assert(adds_of(cur) == adds_of(prev));
                        }
                    }
                    ai = ai + 1;
                }
                proof {
                    assert(ops.take(total as int) =~= ops);
                }
                let ghost after_adds = eval_ops(base_val, adds_of(ops));
                let mut mi: usize = 0;
                while mi < total
                    invariant
                        mi <= total,
                        total == ops.len(),
                        operations@ == ops,
                        value == eval_ops(after_adds, muls_of(ops.take(mi as int))),
                    decreases total - mi,
                {
                    proof {
                        lemma_take_step(ops, mi as int);
                    }
                    let op = operations[mi];
                    match op {
                        Operation::Add(_) => {},
                        Operation::Multiply(_) => {
                            op.apply(&mut value);
                        },
                    }
                    proof {
                        let prev = ops.take(mi as int);
                        let cur = ops.take(mi as int + 1);
                        if !op.is_add() {
                            assert(muls_of(prev).push(op).drop_last() =~= muls_of(prev));
                            assert(muls_of(prev).push(op).last() == op);
                            assert(muls_of(cur) == muls_of(prev).push(op));
                        } else {
                            assert(muls_of(cur) == muls_of(prev));
                        }
                    }
                    mi = mi + 1;
                }
                proof {
                    assert(ops.take(total as int) =~= ops);
                    assert(value == eval_sorted(base_val, ops));
                }

                self.cache.push((attr, value));
                proof {
                    let pre = *old(self);
                    assert forall|j: int|
                        0 <= j < self.cache@.len() implies (#[trigger] self.cache@[j]).1
                        == self.spec_get(self.cache@[j].0) by {
                        if j < pre.cache@.len() {
                            assert(self.cache@[j] == pre.cache@[j]);
                            assert(pre.cache@[j].1 == pre.spec_get(pre.cache@[j].0));
                        } else {
                            assert(self.cache@[j] == (attr, value));
                        }
                    }
                }
                value
            },
        }
    }

    /// The derived value of `attr` rounded to whole units and saturated into
    /// the `i32` range.
    pub fn get_int(&mut self, attr: A) -> (r: i32)
        requires
            old(self).wf(),
        ensures
            final(self).wf(),
            final(self).base_seq() == old(self).base_seq(),
            final(self).effects_seq() == old(self).effects_seq(),
            r == spec_round_to_i32(old(self).spec_get(attr)),
    {
        round_to_i32(self.get(attr))
    }

    /// The derived value of `attr` rounded to whole units and saturated into
    /// the `u32` range; negative values clamp to zero.
    pub fn get_uint(&mut self, attr: A) -> (r: u32)
        requires
            old(self).wf(),
        ensures
            final(self).wf(),
            final(self).base_seq() == old(self).base_seq(),
            final(self).effects_seq() == old(self).effects_seq(),
            r == spec_round_to_u32(old(self).spec_get(attr)),
    {
        round_to_u32(self.get(attr))
    }

    /// Unregisters every effect carrying `id`, returning them in order; the
    /// cache and base entries stay as they are.
    fn extract_id(&mut self, id: u128) -> (removed: Vec<Effect<A>>)
        ensures
            final(self).base_seq() == old(self).base_seq(),
            final(self).cache_seq() == old(self).cache_seq(),
            final(self).effects_seq() == remove_id(old(self).effects_seq(), id),
            removed@ == with_id(old(self).effects_seq(), id),
    {
        let ghost orig = self.temporary_effects@;
        let n = self.temporary_effects.len();
        let mut kept: Vec<Effect<A>> = Vec::new();
        let mut removed: Vec<Effect<A>> = Vec::new();
        let mut i: usize = 0;
        while i < n
            invariant
                i <= n,
                n == orig.len(),
                self.temporary_effects@ == orig.skip(i as int),
                self.base@ == old(self).base@,
                self.cache@ == old(self).cache@,
                kept@ == remove_id(orig.take(i as int), id),
                removed@ == with_id(orig.take(i as int), id),
            decreases n - i,
        {
            proof {
                lemma_skip_step(orig, i as int);
                lemma_take_step(orig, i as int);
            }
            let e = self.temporary_effects.remove(0);
            proof {
                assert(e == orig[i as int]);
                assert(orig.skip(i as int).remove(0) =~= orig.skip(i as int + 1));
                assert(orig.take(i as int + 1).drop_last() =~= orig.take(i as int));
                assert(orig.take(i as int + 1).last() == orig[i as int]);
            }
            if e.get_id() == id {
                removed.push(e);
            } else {
                kept.push(e);
            }
            i = i + 1;
        }
        proof {
            assert(orig.take(n as int) =~= orig);
        }
        self.temporary_effects = kept;
        removed
    }

    /// Drops every cache entry whose key any effect of `es` touches. Every
    /// surviving entry stood in the cache before.
    fn prune_cache_touched_any(&mut self, es: &Vec<Effect<A>>)
        ensures
            final(self).base_seq() == old(self).base_seq(),
            final(self).effects_seq() == old(self).effects_seq(),
            forall|j: int|
                0 <= j < final(self).cache_seq().len() ==> {
                    &&& old(self).cache_seq().contains(#[trigger] final(self).cache_seq()[j])
                    &&& forall|i: int|
                        0 <= i < es@.len() ==> !mods_touch(
                            (#[trigger] es@[i]).mods(),
                            final(self).cache_seq()[j].0,
                        )
                },
    {
        let n = self.cache.len();
        let mut keep: Vec<(A, i64)> = Vec::new();
        let mut i: usize = 0;
        while i < n
            invariant
                i <= n,
                n == self.cache@.len(),
                forall|j: int|
                    0 <= j < keep@.len() ==> {
                        &&& self.cache@.contains(#[trigger] keep@[j])
                        &&& forall|ii: int|
                            0 <= ii < es@.len() ==> !mods_touch(
                                (#[trigger] es@[ii]).mods(),
                                keep@[j].0,
                            )
                    },
            decreases n - i,
        {
            let entry = self.cache[i];
            if !any_touches(es, &entry.0) {
                proof {
                    assert(self.cache@[i as int] == entry);
                }
                keep.push(entry);
            }
            i = i + 1;
        }
        self.cache = keep;
    }

    /// Drops every cache entry whose key `e` touches. Every surviving entry
    /// stood in the cache before.
    fn prune_cache_touched_one(&mut self, e: &Effect<A>)
        ensures
            final(self).base_seq() == old(self).base_seq(),
            final(self).effects_seq() == old(self).effects_seq(),
            forall|j: int|
                0 <= j < final(self).cache_seq().len() ==> old(self).cache_seq().contains(
                    #[trigger] final(self).cache_seq()[j],
                ) && !mods_touch(e.mods(), final(self).cache_seq()[j].0),
    {
        let n = self.cache.len();
        let mut keep: Vec<(A, i64)> = Vec::new();
        let mut i: usize = 0;
        while i < n
            invariant
                i <= n,
                n == self.cache@.len(),
                forall|j: int|
                    0 <= j < keep@.len() ==> self.cache@.contains(#[trigger] keep@[j])
                        && !mods_touch(e.mods(), keep@[j].0),
            decreases n - i,
        {
            let entry = self.cache[i];
            if !effect_touches(e, &entry.0) {
                proof {
                    assert(self.cache@[i as int] == entry);
                }
                keep.push(entry);
            }
            i = i + 1;
        }
        self.cache = keep;
    }

    /// Drops every cache entry whose key is `k`. Every surviving entry stood
    /// in the cache before.
    fn prune_cache_for_key(&mut self, k: &A)
        ensures
            final(self).base_seq() == old(self).base_seq(),
            final(self).effects_seq() == old(self).effects_seq(),
            forall|j: int|
                0 <= j < final(self).cache_seq().len() ==> old(self).cache_seq().contains(
                    #[trigger] final(self).cache_seq()[j],
                ) && final(self).cache_seq()[j].0 != *k,
    {
        let n = self.cache.len();
        let mut keep: Vec<(A, i64)> = Vec::new();
        let mut i: usize = 0;
        while i < n
            invariant
                i <= n,
                n == self.cache@.len(),
                forall|j: int|
                    0 <= j < keep@.len() ==> self.cache@.contains(#[trigger] keep@[j])
                        && keep@[j].0 != *k,
            decreases n - i,
        {
            let entry = self.cache[i];
            if !entry.0.key_eq(k) {
                proof {
                    assert(self.cache@[i as int] == entry);
                }
                keep.push(entry);
            }
            i = i + 1;
        }
        self.cache = keep;
    }
}

} // verus!
