//! The arithmetic of the example user program: Fibonacci numbers and their
//! decimal form.
use vstd::prelude::*;
use crate::text::decimal_digits;

verus! {

pub open spec fn fib(n: nat) -> nat
    decreases n,
{
    if n <= 1 {
        n
    } else {
        fib((n - 1) as nat) + fib((n - 2) as nat)
    }
}

/// The `n`-th Fibonacci number, computed by the naive recursion.
pub fn fibonacci(n: u64) -> (r: u64)
    requires
        fib(n as nat) <= u64::MAX,
    ensures
        r == fib(n as nat),
    decreases n,
{
    if n <= 1 {
        n
    } else {
        fibonacci(n - 1) + fibonacci(n - 2)
    }
}

/// The ASCII bytes of the decimal form of `n`.
pub open spec fn digit_bytes(n: nat) -> Seq<u8> {
    decimal_digits(n).map_values(|c: char| c as u8)
}

proof fn lemma_digits_nonempty(n: nat)
    ensures
        decimal_digits(n).len() >= 1,
        forall|i: int| 0 <= i < decimal_digits(n).len() ==> ('0' as u32) <= (#[trigger] decimal_digits(n)[i] as u32) <= ('9' as u32),
    decreases n,
{
    if n >= 10 {
        lemma_digits_nonempty(n / 10);
    }
}

fn write_digits(n: u64, buffer: &mut [u8]) -> (len: usize)
    requires
        digit_bytes(n as nat).len() <= old(buffer)@.len(),
    ensures
        len == digit_bytes(n as nat).len(),
        final(buffer)@.len() == old(buffer)@.len(),
        final(buffer)@.subrange(0, len as int) == digit_bytes(n as nat),
        final(buffer)@.subrange(len as int, final(buffer)@.len() as int) == old(buffer)@.subrange(len as int, old(buffer)@.len() as int),
    decreases n,
{
    proof {
        lemma_digits_nonempty(n as nat);
    }
    let d = (n % 10) as u8 + 48;
    if n < 10 {
        buffer[0] = d;
        assert(buffer@.subrange(0, 1) =~= digit_bytes(n as nat));
        assert(buffer@.subrange(1, buffer@.len() as int) =~= old(buffer)@.subrange(1, old(buffer)@.len() as int));
        1
    } else {
        assert(digit_bytes(n as nat) =~= digit_bytes((n / 10) as nat).push(d));
        let len = write_digits(n / 10, buffer);
        let ghost before = buffer@;
        buffer[len] = d;
        assert(buffer@.subrange(0, len + 1) =~= before.subrange(0, len as int).push(d));
        assert(buffer@.subrange(len + 1, buffer@.len() as int) =~= before.subrange(len + 1, before.len() as int));
        assert(before.subrange(len + 1, before.len() as int) =~= old(buffer)@.subrange(len + 1, old(buffer)@.len() as int)) by {
            assert forall|k: int| 0 <= k < before.len() - (len + 1) implies #[trigger] before.subrange(len + 1, before.len() as int)[k] == old(buffer)@.subrange(len + 1, old(buffer)@.len() as int)[k] by {
                assert(before.subrange(len as int, before.len() as int)[k + 1] == old(buffer)@.subrange(len as int, old(buffer)@.len() as int)[k + 1]);
            }
        }
        len + 1
    }
}

/// Writes the decimal form of `n` at the start of `buffer` and returns its
/// length; the rest of the buffer is left as it was.
pub fn format_number_to_buffer(n: u64, buffer: &mut [u8]) -> (len: usize)
    requires
        digit_bytes(n as nat).len() <= old(buffer)@.len(),
    ensures
        len == digit_bytes(n as nat).len(),
        final(buffer)@.len() == old(buffer)@.len(),
        final(buffer)@.subrange(0, len as int) == digit_bytes(n as nat),
        final(buffer)@.subrange(len as int, final(buffer)@.len() as int) == old(buffer)@.subrange(len as int, old(buffer)@.len() as int),
{
    write_digits(n, buffer)
}

} // verus!
