//! Withdrawal authorizer support: the canonical typed message that an
//! origin-address withdrawal must be signed over. Canonicalization is
//! security-critical: the message binds sender, recipient, custodian and
//! amount in fixed-width fields, and `lemma_withdraw_message_injective`
//! proves that no two different withdrawal requests share a message, so a
//! signature for one request can never authorize another.
use crate::address::Address;
use vstd::arithmetic::div_mod::lemma_breakdown;
use vstd::arithmetic::div_mod::lemma_div_denominator;
use vstd::arithmetic::div_mod::lemma_small_mod;
use vstd::prelude::*;

verus! {

/// 256 raised to `n`.
pub open spec fn pow256(n: nat) -> nat
    decreases n,
{
    if n == 0 {
        1
    } else {
        256 * pow256((n - 1) as nat)
    }
}

pub proof fn lemma_pow256_pos(n: nat)
    ensures
        pow256(n) > 0,
    decreases n,
{
    if n > 0 {
        lemma_pow256_pos((n - 1) as nat);
    }
}

/// The sixteen little-endian base-256 digits of an amount.
pub open spec fn le_bytes16(a: u128) -> Seq<u8> {
    Seq::new(16, |i: int| ((a as nat / pow256(i as nat)) % 256) as u8)
}

/// The value little-endian digits denote.
pub open spec fn le_val(s: Seq<u8>) -> nat
    decreases s.len(),
{
    if s.len() == 0 {
        0
    } else {
        (le_val(s.drop_last()) + s.last() * pow256((s.len() - 1) as nat)) as nat
    }
}

proof fn lemma_le_val_prefix(a: u128, n: int)
    requires
        0 <= n <= 16,
    ensures
        le_val(le_bytes16(a).subrange(0, n)) == (a as nat) % pow256(n as nat),
    decreases n,
{
    lemma_pow256_pos(n as nat);
    if n == 0 {
        assert(le_bytes16(a).subrange(0, 0) =~= Seq::<u8>::empty());
        lemma_small_mod(0, 1);
        assert((a as nat) % pow256(0) == 0) by {
            assert(pow256(0) == 1);
            assert((a as nat) % 1 == 0) by (nonlinear_arith);
        }
    } else {
        lemma_le_val_prefix(a, n - 1);
        lemma_pow256_pos((n - 1) as nat);
        let s = le_bytes16(a);
        let p = s.subrange(0, n);
        assert(p.drop_last() =~= s.subrange(0, n - 1));
        assert(p.last() == ((a as nat / pow256((n - 1) as nat)) % 256) as u8);
        assert(((a as nat / pow256((n - 1) as nat)) % 256) < 256) by (nonlinear_arith)
            requires
                pow256((n - 1) as nat) > 0,
        ;
        lemma_breakdown(a as int, pow256((n - 1) as nat) as int, 256);
        assert(pow256(n as nat) == pow256((n - 1) as nat) * 256) by {
            assert(pow256(n as nat) == 256 * pow256((n - 1) as nat));
        }
    }
}

/// The digits of an amount denote exactly that amount.
pub proof fn lemma_le_val_of_le_bytes16(a: u128)
    ensures
        le_val(le_bytes16(a)) == a,
{
    lemma_le_val_prefix(a, 16);
    assert(le_bytes16(a).subrange(0, 16) =~= le_bytes16(a));
    assert(pow256(16) == 0x100000000000000000000000000000000) by {
        reveal_with_fuel(pow256, 17);
    }
    lemma_small_mod(a as nat, pow256(16));
}

/// Canonical typed withdrawal message: the sender address, the origin-chain
/// recipient, the custodian address, then the amount as sixteen
/// little-endian bytes. 76 bytes in all.
pub open spec fn withdraw_msg(
    sender: Seq<u8>,
    recipient: Seq<u8>,
    custodian: Seq<u8>,
    amount: u128,
) -> Seq<u8> {
    sender + recipient + custodian + le_bytes16(amount)
}

/// No two distinct withdrawal requests share a canonical message: a
/// signature over one message can authorize only that sender, recipient,
/// custodian and amount. In particular a signature replayed for a different
/// amount or recipient names a different message and fails verification.
pub proof fn lemma_withdraw_message_injective(
    s1: Seq<u8>,
    r1: Seq<u8>,
    c1: Seq<u8>,
    a1: u128,
    s2: Seq<u8>,
    r2: Seq<u8>,
    c2: Seq<u8>,
    a2: u128,
)
    requires
        s1.len() == 20,
        r1.len() == 20,
        c1.len() == 20,
        s2.len() == 20,
        r2.len() == 20,
        c2.len() == 20,
        withdraw_msg(s1, r1, c1, a1) == withdraw_msg(s2, r2, c2, a2),
    ensures
        s1 == s2,
        r1 == r2,
        c1 == c2,
        a1 == a2,
{
    let m1 = withdraw_msg(s1, r1, c1, a1);
    let m2 = withdraw_msg(s2, r2, c2, a2);
    assert(s1 =~= m1.subrange(0, 20));
    assert(r1 =~= m1.subrange(20, 40));
    assert(c1 =~= m1.subrange(40, 60));
    assert(le_bytes16(a1) =~= m1.subrange(60, 76));
    assert(s2 =~= m2.subrange(0, 20));
    assert(r2 =~= m2.subrange(20, 40));
    assert(c2 =~= m2.subrange(40, 60));
    assert(le_bytes16(a2) =~= m2.subrange(60, 76));
    lemma_le_val_of_le_bytes16(a1);
    lemma_le_val_of_le_bytes16(a2);
}

/// Build the canonical withdrawal message for signing and verification.
pub fn withdraw_message_bytes(
    sender: &Address,
    eth_recipient: &Address,
    custodian: &Address,
    amount: u128,
) -> (r: Vec<u8>)
    requires
        sender.wf(),
        eth_recipient.wf(),
        custodian.wf(),
    ensures
        r@ == withdraw_msg(sender@, eth_recipient@, custodian@, amount),
{
    let mut out: Vec<u8> = Vec::new();
    push_bytes(&mut out, sender.as_bytes());
    push_bytes(&mut out, eth_recipient.as_bytes());
    push_bytes(&mut out, custodian.as_bytes());
    assert(out@ == sender@ + eth_recipient@ + custodian@);
    let ghost prefix = out@;
    let mut v: u128 = amount;
    let mut i: usize = 0;
    proof {
        assert(pow256(0) == 1);
        assert((amount as nat) / 1 == amount as nat) by (nonlinear_arith);
        assert(le_bytes16(amount).subrange(0, 0) =~= Seq::<u8>::empty());
        assert(out@ =~= prefix + le_bytes16(amount).subrange(0, 0));
    }
    while i < 16
        invariant
            i <= 16,
            out@ == prefix + le_bytes16(amount).subrange(0, i as int),
            v as nat == (amount as nat) / pow256(i as nat),
        decreases 16 - i,
    {
        proof {
            lemma_pow256_pos(i as nat);
        }
        let d: u8 = (v % 256) as u8;
        out.push(d);
        proof {
            assert(d == le_bytes16(amount)[i as int]);
            assert(out@ == prefix + le_bytes16(amount).subrange(0, i + 1)) by {
                assert(le_bytes16(amount).subrange(0, i + 1) =~= le_bytes16(amount).subrange(
                    0,
                    i as int,
                ).push(d));
                assert(out@ =~= prefix + le_bytes16(amount).subrange(0, i as int).push(d));
            }
            lemma_div_denominator(amount as int, pow256(i as nat) as int, 256);
            assert(pow256((i + 1) as nat) == 256 * pow256(i as nat));
            assert((v as nat) / 256 == (amount as nat) / pow256((i + 1) as nat)) by {
                assert(pow256(i as nat) * 256 == 256 * pow256(i as nat)) by (nonlinear_arith);
            }
        }
        v = v / 256;
        i += 1;
    }
    proof {
        assert(le_bytes16(amount).subrange(0, 16) =~= le_bytes16(amount));
    }
    out
}

fn push_bytes(out: &mut Vec<u8>, b: &[u8])
    ensures
        final(out)@ == old(out)@ + b@,
{
    let mut i: usize = 0;
    while i < b.len()
        invariant
            i <= b@.len(),
            out@ == old(out)@ + b@.subrange(0, i as int),
        decreases b@.len() - i,
    {
        let x = b[i];
        out.push(x);
        proof {
            assert(out@ =~= old(out)@ + b@.subrange(0, i + 1));
        }
        i += 1;
    }
    proof {
        assert(b@.subrange(0, b@.len() as int) =~= b@);
        assert(out@ =~= old(out)@ + b@);
    }
}

} // verus!
