use vstd::prelude::*;

use crate::text::{decimal, push_decimal};

verus! {

/// The sum of the absolute differences between the bytes of `a` and `b` at equal positions.
pub open spec fn total_difference(a: Seq<u8>, b: Seq<u8>) -> int
    decreases a.len(),
{
    if a.len() == 0 || b.len() == 0 {
        0
    } else {
        let x = a.last() as int;
        let y = b.last() as int;
        total_difference(a.drop_last(), b.drop_last()) + if x >= y { x - y } else { y - x }
    }
}

/// The message of the error for image data of different sizes.
pub open spec fn size_mismatch_message(a_len: nat, b_len: nat) -> Seq<char> {
    "Image data is not same size, "@ + decimal(a_len) + " != "@ + decimal(b_len)
}

/// How far apart two images are: the sum, over their bytes of image data, of the absolute
/// difference between the bytes at the same position; an error when the data differ in size.
pub fn difference(a: &[u8], b: &[u8]) -> (r: Result<usize, String>)
    requires
        a@.len() == b@.len() ==> total_difference(a@, b@) <= usize::MAX,
    ensures
        a@.len() == b@.len() ==> r == Ok::<usize, String>(total_difference(a@, b@) as usize),
        a@.len() != b@.len() ==> (r matches Err(message) && message@ == size_mismatch_message(
            a@.len(),
            b@.len(),
        )),
{
    if a.len() != b.len() {
        let mut message = String::from_str("Image data is not same size, ");
        push_decimal(&mut message, a.len() as u64);
        message.append(" != ");
        push_decimal(&mut message, b.len() as u64);
        return Err(message);
    }
    let mut sum: usize = 0;
    let mut i: usize = 0;
    while i < a.len()
        invariant
            a@.len() == b@.len(),
            total_difference(a@, b@) <= usize::MAX,
            i <= a@.len(),
            sum == total_difference(a@.take(i as int), b@.take(i as int)),
        decreases a@.len() - i,
    {
        proof {
            assert(a@.take(i + 1).drop_last() =~= a@.take(i as int));
            assert(b@.take(i + 1).drop_last() =~= b@.take(i as int));
            lemma_total_difference_prefix(a@, b@, i + 1);
        }
        let x = a[i];
        let y = b[i];
        let d = if x >= y { x - y } else { y - x };
        sum = sum + d as usize;
        i += 1;
    }
    proof {
        assert(a@.take(a@.len() as int) =~= a@);
        assert(b@.take(b@.len() as int) =~= b@);
    }
    Ok(sum)
}

/// The difference over a prefix never exceeds the difference over the whole.
proof fn lemma_total_difference_prefix(a: Seq<u8>, b: Seq<u8>, n: int)
    requires
        a.len() == b.len(),
        0 <= n <= a.len(),
    ensures
        0 <= total_difference(a.take(n), b.take(n)) <= total_difference(a, b),
    decreases a.len(),
{
    if n == a.len() {
        assert(a.take(n) =~= a);
        assert(b.take(n) =~= b);
        lemma_total_difference_nonneg(a, b);
    } else {
        assert(a.drop_last().take(n) =~= a.take(n));
        assert(b.drop_last().take(n) =~= b.take(n));
        lemma_total_difference_prefix(a.drop_last(), b.drop_last(), n);
    }
}

/// The difference is never negative.
proof fn lemma_total_difference_nonneg(a: Seq<u8>, b: Seq<u8>)
    ensures
        total_difference(a, b) >= 0,
    decreases a.len(),
{
    if a.len() > 0 && b.len() > 0 {
        lemma_total_difference_nonneg(a.drop_last(), b.drop_last());
    }
}


/// Law: an image differs from itself by nothing.
pub proof fn law_difference_to_self(a: Seq<u8>)
    ensures
        total_difference(a, a) == 0,
    decreases a.len(),
{
    if a.len() > 0 {
        law_difference_to_self(a.drop_last());
    }
}

/// Law: `a` differs from `b` as much as `b` differs from `a`.
pub proof fn law_difference_symmetric(a: Seq<u8>, b: Seq<u8>)
    ensures
        total_difference(a, b) == total_difference(b, a),
    decreases a.len(),
{
    if a.len() > 0 && b.len() > 0 {
        law_difference_symmetric(a.drop_last(), b.drop_last());
    }
}

/// Law: the difference of two images made of two parts each is the sum of the differences of
/// the parts, when the parts pair up in length; in particular, appending one byte to each adds
/// exactly the absolute difference of those bytes.
pub proof fn law_difference_adds_up(a: Seq<u8>, b: Seq<u8>, c: Seq<u8>, d: Seq<u8>)
    requires
        a.len() == b.len(),
        c.len() == d.len(),
    ensures
        total_difference(a + c, b + d) == total_difference(a, b) + total_difference(c, d),
    decreases c.len(),
{
    if c.len() > 0 {
        law_difference_adds_up(a, b, c.drop_last(), d.drop_last());
        assert((a + c).drop_last() =~= a + c.drop_last());
        assert((b + d).drop_last() =~= b + d.drop_last());
        assert((a + c).last() == c.last());
        assert((b + d).last() == d.last());
    } else {
        assert(a + c =~= a);
        assert(b + d =~= b);
    }
}

/// `n` bytes, all equal to `x`.
pub open spec fn uniform(n: nat, x: u8) -> Seq<u8> {
    Seq::new(n, |i: int| x)
}

/// Law: `n` bytes all equal to `x` differ from `n` bytes all equal to `y` by `n` times the
/// absolute difference of `x` and `y`; a black and a white image of `n` bytes differ by
/// `255 * n`.
pub proof fn law_difference_of_uniform_data(n: nat, x: u8, y: u8)
    ensures
        total_difference(uniform(n, x), uniform(n, y)) == n * (if x >= y {
            x - y
        } else {
            y - x
        }),
    decreases n,
{
    if n > 0 {
        law_difference_of_uniform_data((n - 1) as nat, x, y);
        assert(uniform(n, x).drop_last() =~= uniform((n - 1) as nat, x));
        assert(uniform(n, y).drop_last() =~= uniform((n - 1) as nat, y));
        assert(uniform(n, x).last() == x);
        assert(uniform(n, y).last() == y);
        let d: int = if x >= y { x - y } else { y - x };
        let m = (n - 1) as nat;
        assert(total_difference(uniform(n, x), uniform(n, y)) == total_difference(uniform(m, x), uniform(m, y))
            + d);
        assert(total_difference(uniform(m, x), uniform(m, y)) == m * d);
        assert(m * d + d == n * d) by (nonlinear_arith)
            requires
                m + 1 == n,
        ;
    } else {
        assert(uniform(n, x).len() == 0);
    }
}

} // verus!
