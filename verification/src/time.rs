//! Wall-clock readings and their decomposition into the `TimeVal` value
//! that `sys_get_time` writes into the caller's buffer.

use vstd::prelude::*;
use vstd::arithmetic::div_mod::lemma_div_is_ordered;
use crate::bytes::le_of;
use crate::bytes::push_le;
use crate::bytes::lemma_le_of_len;

verus! {

pub const USEC_PER_SEC: usize = 1000000;

/// Size in bytes of an encoded `TimeVal`: two little-endian eight-byte words.
pub const TIME_VAL_SIZE: usize = 16;

/// Wall-clock time since the kernel epoch, split at the syscall boundary
/// into whole seconds and the microseconds below one second.
pub struct TimeVal {
    pub sec: usize,
    pub usec: usize,
}

/// The bytes `sys_get_time` writes for the clock reading `us`.
pub open spec fn time_val_bytes(us: nat) -> Seq<u8> {
    le_of(us / (USEC_PER_SEC as nat), 8) + le_of(us % (USEC_PER_SEC as nat), 8)
}

/// Decompose a microsecond clock reading.
pub fn time_val_from_us(us: usize) -> (tv: TimeVal)
    ensures
        tv.sec == us / USEC_PER_SEC,
        tv.usec == us % USEC_PER_SEC,
{
    TimeVal { sec: us / USEC_PER_SEC, usec: us % USEC_PER_SEC }
}

/// Serialize a `TimeVal` for the copy into user memory.
pub fn encode_time_val(tv: &TimeVal) -> (out: Vec<u8>)
    ensures
        out@ == le_of(tv.sec as nat, 8) + le_of(tv.usec as nat, 8),
        out@.len() == TIME_VAL_SIZE as nat,
{
    let mut out: Vec<u8> = Vec::new();
    push_le(&mut out, tv.sec, 8);
    push_le(&mut out, tv.usec, 8);
    proof {
        lemma_le_of_len(tv.sec as nat, 8);
        lemma_le_of_len(tv.usec as nat, 8);
        assert(out@ =~= le_of(tv.sec as nat, 8) + le_of(tv.usec as nat, 8));
    }
    out
}

/// The decomposition into a `(seconds, microseconds)` pair never moves
/// backwards as the clock reading grows: a later reading yields a larger
/// second, or the same second and at least the same microseconds.
pub proof fn lemma_time_val_monotone(us1: nat, us2: nat)
    requires
        us1 <= us2,
    ensures
        us1 / (USEC_PER_SEC as nat) <= us2 / (USEC_PER_SEC as nat),
        us1 / (USEC_PER_SEC as nat) == us2 / (USEC_PER_SEC as nat)
            ==> us1 % (USEC_PER_SEC as nat) <= us2 % (USEC_PER_SEC as nat),
{
    let d: int = USEC_PER_SEC as int;
    lemma_div_is_ordered(us1 as int, us2 as int, d);
    assert(us1 as int == d * (us1 as int / d) + us1 as int % d);
    assert(us2 as int == d * (us2 as int / d) + us2 as int % d);
}

} // verus!
