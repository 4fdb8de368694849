use crate::err::ObjectError;
use vstd::prelude::*;
use vstd::string::StrSliceExecFns;
use vstd::utf8::is_ascii_chars;

verus! {

broadcast use vstd::std_specs::vec::group_vec_axioms, vstd::string::group_string_axioms;

/// One decimal digit as its ASCII byte.
pub open spec fn digit_byte(d: int) -> u8 {
    (48 + d) as u8
}

/// The decimal digits of a nonnegative integer, most significant first.
pub open spec fn dec_text(n: nat) -> Seq<u8>
    decreases n,
{
    if n < 10 {
        seq![digit_byte(n as int)]
    } else {
        dec_text(n / 10) + seq![digit_byte((n % 10) as int)]
    }
}

/// The decimal form of a signed integer: a minus sign when negative, then
/// the digits of the magnitude.
pub open spec fn int_text(i: int) -> Seq<u8> {
    if i < 0 {
        seq![45u8] + dec_text((-i) as nat)
    } else {
        dec_text(i as nat)
    }
}

/// `true` or `false`.
pub open spec fn bool_text(b: bool) -> Seq<u8> {
    if b {
        seq![116u8, 114u8, 117u8, 101u8]
    } else {
        seq![102u8, 97u8, 108u8, 115u8, 101u8]
    }
}

/// The textual form of an indirect reference:
/// the object number, the generation number and `R`, space-separated.
pub open spec fn ref_text(id: u64, gen: u16) -> Seq<u8> {
    dec_text(id as nat) + seq![32u8] + dec_text(gen as nat) + seq![32u8, 82u8]
}

/// The bytes of an ASCII character sequence, one byte per character.
pub open spec fn plain_bytes(s: Seq<char>) -> Seq<u8> {
    Seq::new(s.len(), |i: int| s[i] as u8)
}

/// A backslash or a parenthesis is preceded by an escaping backslash;
/// every other character stands for itself.
pub open spec fn escape_char(c: char) -> Seq<u8> {
    if c == '\\' || c == '(' || c == ')' {
        seq![92u8, c as u8]
    } else {
        seq![c as u8]
    }
}

/// The escaped bytes of the characters of `s` from position `i` on.
pub open spec fn escaped_bytes_from(s: Seq<char>, i: int) -> Seq<u8>
    decreases s.len() - i,
{
    if i < 0 || i >= s.len() {
        Seq::empty()
    } else {
        escape_char(s[i]) + escaped_bytes_from(s, i + 1)
    }
}

/// The escaped form of a whole text.
pub open spec fn escaped_bytes(s: Seq<char>) -> Seq<u8> {
    escaped_bytes_from(s, 0)
}

/// The index of the first character of `s`, at or after `i`, outside the
/// seven-bit range; the length of `s` when all are within it.
pub open spec fn first_wide_from(s: Seq<char>, i: int) -> int
    decreases s.len() - i,
{
    if i < 0 || i >= s.len() {
        s.len() as int
    } else if s[i] > '\u{7f}' {
        i
    } else {
        first_wide_from(s, i + 1)
    }
}

/// The search for a wide character skips over a seven-bit range.
pub proof fn lemma_first_wide_skip(s: Seq<char>, a: int, b: int)
    requires
        0 <= a <= b <= s.len(),
        forall|j: int| a <= j < b ==> #[trigger] s[j] <= '\u{7f}',
    ensures
        first_wide_from(s, a) == first_wide_from(s, b),
    decreases b - a,
{
    if a < b {
        lemma_first_wide_skip(s, a + 1, b);
    }
}

/// The escaped text splits at any position: the escaped form of the first
/// `i` characters, then the escaped form of the rest.
pub proof fn lemma_escaped_split(s: Seq<char>, i: int, j: int)
    requires
        0 <= j <= i <= s.len(),
    ensures
        escaped_bytes_from(s.subrange(0, i), j) + escaped_bytes_from(s, i) == escaped_bytes_from(
            s,
            j,
        ),
    decreases i - j,
{
    let sub = s.subrange(0, i);
    if j == i {
        assert(escaped_bytes_from(sub, j) =~= Seq::<u8>::empty());
        assert(escaped_bytes_from(sub, j) + escaped_bytes_from(s, i) =~= escaped_bytes_from(s, j));
    } else {
        lemma_escaped_split(s, i, j + 1);
        assert(sub[j] == s[j]);
        assert(escaped_bytes_from(sub, j) + escaped_bytes_from(s, i) =~= escape_char(s[j])
            + (escaped_bytes_from(sub, j + 1) + escaped_bytes_from(s, i)));
    }
}

/// Every byte of a decimal text is a digit, and there is at least one.
pub proof fn lemma_dec_text_digits(n: nat)
    ensures
        dec_text(n).len() >= 1,
        forall|k: int| 0 <= k < dec_text(n).len() ==> 48 <= #[trigger] dec_text(n)[k] <= 57,
    decreases n,
{
    if n >= 10 {
        lemma_dec_text_digits(n / 10);
    }
}

/// Distinct numbers have distinct decimal texts.
pub proof fn lemma_dec_text_injective(m: nat, n: nat)
    requires
        dec_text(m) == dec_text(n),
    ensures
        m == n,
    decreases m,
{
    lemma_dec_text_digits(m);
    lemma_dec_text_digits(n);
    if m >= 10 && n >= 10 {
        let a = dec_text(m / 10);
        let b = dec_text(n / 10);
        assert(dec_text(m) == a + seq![digit_byte((m % 10) as int)]);
        assert(dec_text(n) == b + seq![digit_byte((n % 10) as int)]);
        assert(a.len() == b.len());
        assert forall|k: int| 0 <= k < a.len() implies a[k] == b[k] by {
            assert((a + seq![digit_byte((m % 10) as int)])[k] == a[k]);
            assert((b + seq![digit_byte((n % 10) as int)])[k] == b[k]);
        }
        assert(a =~= b);
        lemma_dec_text_injective(m / 10, n / 10);
        assert(dec_text(m)[a.len() as int] == digit_byte((m % 10) as int));
        assert(dec_text(n)[b.len() as int] == digit_byte((n % 10) as int));
    } else if m < 10 && n >= 10 {
        lemma_dec_text_digits(n / 10);
        assert(dec_text(n).len() >= 2);
    } else if m >= 10 && n < 10 {
        lemma_dec_text_digits(m / 10);
        assert(dec_text(m).len() >= 2);
    } else {
        assert(dec_text(m)[0] == digit_byte(m as int));
        assert(dec_text(n)[0] == digit_byte(n as int));
    }
}

/// A sequence is a prefix of itself followed by anything.
pub proof fn lemma_prefix_append(a: Seq<u8>, b: Seq<u8>)
    ensures
        a.is_prefix_of(a + b),
{
    assert(a =~= (a + b).subrange(0, a.len() as int));
}

/// Appends the decimal digits of `n`.
pub fn push_dec_u64(out: &mut Vec<u8>, n: u64)
    ensures
        final(out)@ == old(out)@ + dec_text(n as nat),
    decreases n,
{
    if n < 10 {
        out.push(48 + n as u8);
        assert(out@ =~= old(out)@ + dec_text(n as nat));
    } else {
        push_dec_u64(out, n / 10);
        out.push(48 + (n % 10) as u8);
        assert(out@ =~= old(out)@ + dec_text(n as nat));
    }
}

/// Appends the decimal form of `i`, minus sign included.
pub fn push_dec_i32(out: &mut Vec<u8>, i: i32)
    ensures
        final(out)@ == old(out)@ + int_text(i as int),
{
    if i < 0 {
        out.push(45);
        let m: u64 = (-(i as i64)) as u64;
        push_dec_u64(out, m);
        assert(out@ =~= old(out)@ + int_text(i as int));
    } else {
        push_dec_u64(out, i as u64);
    }
}

/// Appends `true` or `false`.
pub fn push_bool(out: &mut Vec<u8>, b: bool)
    ensures
        final(out)@ == old(out)@ + bool_text(b),
{
    if b {
        out.push(116u8);
        out.push(114u8);
        out.push(117u8);
        out.push(101u8);
    } else {
        out.push(102u8);
        out.push(97u8);
        out.push(108u8);
        out.push(115u8);
        out.push(101u8);
    }
    assert(out@ =~= old(out)@ + bool_text(b));
}

/// Appends the bytes of `s` unchanged when it is ASCII; otherwise leaves
/// `out` alone and reports an encoding violation.
#[verifier::loop_isolation(false)]
pub fn push_plain(out: &mut Vec<u8>, s: &str) -> (r: Result<(), ObjectError>)
    ensures
        old(out)@.is_prefix_of(final(out)@),
        is_ascii_chars(s@) ==> r == Ok::<(), ObjectError>(()) && final(out)@ == old(out)@ + plain_bytes(
            s@,
        ),
        !is_ascii_chars(s@) ==> r == Err::<(), ObjectError>(ObjectError::EncodingViolation) && final(out)@
            == old(out)@,
{
    if s.is_ascii() {
        let bytes = s.as_bytes();
        let mut j: usize = 0;
        while j < bytes.len()
            invariant
                j <= bytes@.len(),
                out@ == old(out)@ + bytes@.subrange(0, j as int),
            decreases bytes@.len() - j,
        {
            out.push(bytes[j]);
            assert(out@ =~= old(out)@ + bytes@.subrange(0, j + 1));
            j += 1;
        }
        proof {
            assert(bytes@.subrange(0, bytes@.len() as int) =~= bytes@);
            assert(bytes@ =~= plain_bytes(s@));
            lemma_prefix_append(old(out)@, plain_bytes(s@));
        }
        Ok(())
    } else {
        proof {
            lemma_prefix_append(old(out)@, Seq::<u8>::empty());
            assert(old(out)@ + Seq::<u8>::empty() =~= old(out)@);
        }
        Err(ObjectError::EncodingViolation)
    }
}

/// Appends the escaped form of `s` when it is ASCII; stops at the first
/// character outside the seven-bit range and reports an encoding
/// violation, having appended exactly the escaped form of the characters
/// before it.
#[verifier::loop_isolation(false)]
pub fn push_escaped(out: &mut Vec<u8>, s: &str) -> (r: Result<(), ObjectError>)
    ensures
        old(out)@.is_prefix_of(final(out)@),
        is_ascii_chars(s@) ==> r == Ok::<(), ObjectError>(()) && final(out)@ == old(out)@
            + escaped_bytes(s@),
        !is_ascii_chars(s@) ==> r == Err::<(), ObjectError>(ObjectError::EncodingViolation)
            && final(out)@ == old(out)@ + escaped_bytes(
            s@.subrange(0, first_wide_from(s@, 0)),
        ),
{
    let n = s.unicode_len();
    let mut i: usize = 0;
    while i < n
        invariant
            i <= n,
            n == s@.len(),
            forall|j: int| 0 <= j < i ==> '\0' <= #[trigger] s@[j] <= '\u{7f}',
            out@ + escaped_bytes_from(s@, i as int) == old(out)@ + escaped_bytes_from(s@, 0),
            old(out)@.is_prefix_of(out@),
        decreases n - i,
    {
        let c = s.get_char(i);
        if (c as u32) > 127 {
            proof {
                assert(!('\0' <= s@[i as int] <= '\u{7f}'));
                lemma_first_wide_skip(s@, 0, i as int);
                assert(first_wide_from(s@, 0) == i);
                lemma_escaped_split(s@, i as int, 0);
                let done = escaped_bytes_from(s@.subrange(0, i as int), 0);
                assert(out@ + escaped_bytes_from(s@, i as int) =~= (old(out)@ + done)
                    + escaped_bytes_from(s@, i as int));
                assert(out@.len() == old(out)@.len() + done.len());
                assert forall|k: int| 0 <= k < out@.len() implies out@[k] == (old(out)@
                    + done)[k] by {
                    assert(out@[k] == (out@ + escaped_bytes_from(s@, i as int))[k]);
                    assert(((old(out)@ + done) + escaped_bytes_from(s@, i as int))[k] == (old(
                        out,
                    )@ + done)[k]);
                }
                assert(out@ =~= old(out)@ + done);
            }
            return Err(ObjectError::EncodingViolation);
        }
        proof {
            assert('\0' <= s@[i as int] <= '\u{7f}');
        }
        let ghost prev = out@;
        if c == '\\' || c == '(' || c == ')' {
            out.push(92u8);
        }
        out.push((c as u32) as u8);
        proof {
            assert(out@ =~= prev + escape_char(s@[i as int]));
            assert(escaped_bytes_from(s@, i as int) == escape_char(s@[i as int])
                + escaped_bytes_from(s@, i + 1));
            assert(out@ + escaped_bytes_from(s@, i + 1) =~= prev + escaped_bytes_from(
                s@,
                i as int,
            ));
            assert(old(out)@ =~= out@.subrange(0, old(out)@.len() as int));
        }
        i += 1;
    }
    proof {
        assert(escaped_bytes_from(s@, n as int) =~= Seq::<u8>::empty());
        assert(out@ =~= out@ + escaped_bytes_from(s@, n as int));
        assert(out@ =~= old(out)@ + escaped_bytes(s@));
    }
    Ok(())
}

} // verus!
