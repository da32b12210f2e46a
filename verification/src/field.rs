use vstd::prelude::*;

verus! {

use vstd::arithmetic::div_mod::{
    lemma_small_mod,
    lemma_mod_add_multiples_vanish,
    lemma_mod_sub_multiples_vanish,
};
use crate::types::FIELD_ORDER;

/// Mathematical sum in the field: (a + b) mod the field order.
pub open spec fn fadd(a: int, b: int) -> int {
    (a + b) % (FIELD_ORDER as int)
}

/// Mathematical difference in the field: (a - b) mod the field order.
pub open spec fn fsub(a: int, b: int) -> int {
    (a - b) % (FIELD_ORDER as int)
}

/// Mathematical negation in the field: (-a) mod the field order.
pub open spec fn fneg(a: int) -> int {
    (0 - a) % (FIELD_ORDER as int)
}

/// Sum of two canonical field elements, reduced to canonical form.
pub fn field_add(a: u64, b: u64) -> (r: u64)
    requires
        a < FIELD_ORDER,
        b < FIELD_ORDER,
    ensures
        r == fadd(a as int, b as int),
        r < FIELD_ORDER,
{
    if b < FIELD_ORDER - a {
        proof {
            lemma_small_mod((a + b) as nat, FIELD_ORDER as nat);
        }
        a + b
    } else {
        let r = a - (FIELD_ORDER - b);
        proof {
            lemma_mod_sub_multiples_vanish(a + b, FIELD_ORDER as int);
            lemma_small_mod(r as nat, FIELD_ORDER as nat);
        }
        r
    }
}

/// Difference of two canonical field elements, reduced to canonical form.
pub fn field_sub(a: u64, b: u64) -> (r: u64)
    requires
        a < FIELD_ORDER,
        b < FIELD_ORDER,
    ensures
        r == fsub(a as int, b as int),
        r < FIELD_ORDER,
{
    if b <= a {
        proof {
            lemma_small_mod((a - b) as nat, FIELD_ORDER as nat);
        }
        a - b
    } else {
        let r = a + (FIELD_ORDER - b);
        proof {
            lemma_mod_add_multiples_vanish(a - b, FIELD_ORDER as int);
            lemma_small_mod(r as nat, FIELD_ORDER as nat);
        }
        r
    }
}

/// Negation of a canonical field element, reduced to canonical form.
pub fn field_neg(a: u64) -> (r: u64)
    requires
        a < FIELD_ORDER,
    ensures
        r == fneg(a as int),
        r < FIELD_ORDER,
{
    if a == 0 {
        proof {
            lemma_small_mod(0nat, FIELD_ORDER as nat);
        }
        0
    } else {
        proof {
            lemma_mod_add_multiples_vanish(0 - a, FIELD_ORDER as int);
            lemma_small_mod((FIELD_ORDER - a) as nat, FIELD_ORDER as nat);
        }
        FIELD_ORDER - a
    }
}

/// Subtracting an amount undoes adding it: a withdrawal of `a` after a
/// deposit of `a` restores the balance exactly.
pub proof fn lemma_fadd_fsub_cancel(b: int, a: int)
    requires
        0 <= b < FIELD_ORDER,
        0 <= a < FIELD_ORDER,
    ensures
        fsub(fadd(b, a), a) == b,
{
    let p = FIELD_ORDER as int;
    if b + a < p {
        lemma_small_mod((b + a) as nat, FIELD_ORDER as nat);
        lemma_small_mod(b as nat, FIELD_ORDER as nat);
    } else {
        lemma_mod_sub_multiples_vanish(b + a, p);
        lemma_small_mod((b + a - p) as nat, FIELD_ORDER as nat);
        lemma_mod_add_multiples_vanish(b - p, p);
        lemma_mod_add_multiples_vanish(b, p);
        lemma_small_mod(b as nat, FIELD_ORDER as nat);
    }
}

/// Adding the negation of an amount is subtracting the amount: the one
/// circuit template covers withdrawals purely through the witness's sign.
pub proof fn lemma_fadd_fneg_is_fsub(b: int, a: int)
    requires
        0 <= b < FIELD_ORDER,
        0 <= a < FIELD_ORDER,
    ensures
        fadd(b, fneg(a)) == fsub(b, a),
{
    let p = FIELD_ORDER as int;
    if a == 0 {
        lemma_small_mod(0nat, FIELD_ORDER as nat);
    } else {
        lemma_mod_add_multiples_vanish(0 - a, p);
        lemma_small_mod((p - a) as nat, FIELD_ORDER as nat);
        lemma_mod_add_multiples_vanish(b - a, p);
    }
}

} // verus!
