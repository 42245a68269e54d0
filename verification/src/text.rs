//! Formatting text without an allocator.
//!
//! Text is put together from pieces. A [`TextBuf`] takes a piece whole or not
//! at all, so what it holds is always text, and it never panics on a piece that
//! is too long. [`written`] says what a buffer holds once a number of pieces
//! have been written to it, the first that does not fit ending the matter.
use vstd::arithmetic::div_mod::lemma_div_denominator;
use vstd::arithmetic::power::{lemma_pow0, lemma_pow1, lemma_pow_positive, pow};
use vstd::prelude::*;
use vstd::utf8::{decode_utf8, encode_utf8, is_ascii_chars, valid_utf8};

verus! {

/// A piece of text was too long for the room that was left.
#[derive(Clone, Copy, PartialEq, Eq, Debug)]
pub struct Full;

/// How many bytes `text` takes up.
pub open spec fn size(text: Seq<char>) -> nat {
    encode_utf8(text).len()
}

/// Whether a buffer of `capacity` bytes that holds `text` has room for `piece`.
pub open spec fn fits(text: Seq<char>, piece: Seq<char>, capacity: nat) -> bool {
    size(text) + size(piece) <= capacity
}

/// What a buffer of `capacity` bytes that holds `text` holds after one more
/// `piece`.
pub open spec fn with_piece(text: Seq<char>, piece: Seq<char>, capacity: nat) -> Seq<char> {
    if fits(text, piece, capacity) {
        text + piece
    } else {
        text
    }
}

/// What a buffer of `capacity` bytes that holds `text` holds after `pieces`
/// have been written in order, up to the first that does not fit.
pub open spec fn written(text: Seq<char>, pieces: Seq<Seq<char>>, capacity: nat) -> Seq<char>
    decreases pieces.len(),
{
    if pieces.len() == 0 || !fits(text, pieces[0], capacity) {
        text
    } else {
        written(text + pieces[0], pieces.drop_first(), capacity)
    }
}

/// `pieces`, one behind the other.
pub open spec fn joined(pieces: Seq<Seq<char>>) -> Seq<char>
    decreases pieces.len(),
{
    if pieces.len() == 0 {
        seq![]
    } else {
        pieces[0] + joined(pieces.drop_first())
    }
}

/// A decimal digit.
pub open spec fn digit(d: nat) -> char {
    (48 + d) as char
}

/// A number in decimal, without leading zeros.
pub open spec fn decimal(n: nat) -> Seq<char>
    decreases n,
{
    if n < 10 {
        seq![digit(n)]
    } else {
        decimal(n / 10).push(digit(n % 10))
    }
}

/// The power of ten with `k` zeros.
pub open spec fn ten_to(k: nat) -> nat
    decreases k,
{
    if k == 0 {
        1
    } else {
        10 * ten_to((k - 1) as nat)
    }
}

/// Bytes add up when texts are joined.
pub proof fn lemma_bytes_of_joined(a: Seq<char>, b: Seq<char>)
    ensures
        encode_utf8(a + b) == encode_utf8(a) + encode_utf8(b),
        size(a + b) == size(a) + size(b),
    decreases a.len(),
{
    if a.len() == 0 {
        assert(a + b =~= b);
        assert(encode_utf8(a) + encode_utf8(b) =~= encode_utf8(b));
    } else {
        assert((a + b).drop_first() =~= a.drop_first() + b);
        lemma_bytes_of_joined(a.drop_first(), b);
        assert(encode_utf8(a + b) =~= encode_utf8(a) + encode_utf8(b));
    }
}

/// A buffer never holds a fragment of a piece: it holds whole pieces, as many as
/// went in before the first that did not fit, and no more than its capacity. It
/// stops short only at a piece that would have gone beyond that.
pub proof fn law_pieces_stay_whole(text: Seq<char>, pieces: Seq<Seq<char>>, capacity: nat)
    requires
        size(text) <= capacity,
    ensures
        size(written(text, pieces, capacity)) <= capacity,
        exists|k: int|
            {
                &&& 0 <= k <= pieces.len()
                &&& written(text, pieces, capacity) == text + joined(#[trigger] pieces.take(k))
                &&& k < pieces.len() ==> size(text + joined(pieces.take(k))) + size(pieces[k])
                    > capacity
            },
    decreases pieces.len(),
{
    if pieces.len() == 0 || !fits(text, pieces[0], capacity) {
        assert(text + joined(pieces.take(0)) =~= text);
    } else {
        let rest = pieces.drop_first();
        lemma_bytes_of_joined(text, pieces[0]);
        law_pieces_stay_whole(text + pieces[0], rest, capacity);
        let k = choose|k: int|
            {
                &&& 0 <= k <= rest.len()
                &&& written(text + pieces[0], rest, capacity) == text + pieces[0] + joined(
                    #[trigger] rest.take(k),
                )
                &&& k < rest.len() ==> size(text + pieces[0] + joined(rest.take(k))) + size(rest[k])
                    > capacity
            };
        assert(pieces.take(k + 1).drop_first() =~= rest.take(k));
        assert(text + joined(pieces.take(k + 1)) =~= text + pieces[0] + joined(rest.take(k)));
    }
}

/// One piece of a number of them: either it goes in and the rest follow, or
/// that is all, and the pieces do not fit together.
pub proof fn lemma_next_piece(text: Seq<char>, pieces: Seq<Seq<char>>, capacity: nat)
    requires
        pieces.len() > 0,
    ensures
        ({
            let rest = pieces.drop_first();
            if fits(text, pieces[0], capacity) {
                &&& written(text, pieces, capacity) == written(text + pieces[0], rest, capacity)
                &&& text + joined(pieces) == (text + pieces[0]) + joined(rest)
                &&& rest.len() == 0 ==> text + joined(pieces) == text + pieces[0] && size(
                    text + joined(pieces),
                ) <= capacity
            } else {
                &&& written(text, pieces, capacity) == text
                &&& size(text + joined(pieces)) > capacity
            }
        }),
{
    let rest = pieces.drop_first();
    assert(text + joined(pieces) =~= (text + pieces[0]) + joined(rest));
    lemma_bytes_of_joined(text, pieces[0]);
    lemma_bytes_of_joined(text + pieces[0], joined(rest));
    if rest.len() == 0 {
        assert(text + joined(pieces) =~= text + pieces[0]);
    }
}

/// Pieces that fit together are all written.
pub proof fn law_pieces_that_fit_are_written(
    text: Seq<char>,
    pieces: Seq<Seq<char>>,
    capacity: nat,
)
    requires
        size(text + joined(pieces)) <= capacity,
    ensures
        written(text, pieces, capacity) == text + joined(pieces),
    decreases pieces.len(),
{
    if pieces.len() == 0 {
        assert(text + joined(pieces) =~= text);
    } else {
        let rest = pieces.drop_first();
        assert(text + joined(pieces) =~= (text + pieces[0]) + joined(rest));
        lemma_bytes_of_joined(text + pieces[0], joined(rest));
        lemma_bytes_of_joined(text, pieces[0]);
        law_pieces_that_fit_are_written(text + pieces[0], rest, capacity);
    }
}

/// A number is written in plain digits, at least one of them.
pub proof fn lemma_decimal_is_plain(n: nat)
    ensures
        is_ascii_chars(decimal(n)),
        decimal(n).len() >= 1,
        size(decimal(n)) == decimal(n).len(),
    decreases n,
{
    if n >= 10 {
        lemma_decimal_is_plain(n / 10);
    }
    vstd::utf8::is_ascii_chars_encode_utf8(decimal(n));
}

/// A number below a power of ten has no more digits than that power has zeros.
pub proof fn lemma_decimal_length(n: nat, k: nat)
    requires
        n < ten_to(k),
        k >= 1,
    ensures
        decimal(n).len() <= k,
    decreases k,
{
    if n >= 10 {
        reveal_with_fuel(ten_to, 2);
        lemma_decimal_length(n / 10, (k - 1) as nat);
    }
}

/// A number starts with a digit.
pub proof fn lemma_decimal_starts_with_a_digit(n: nat)
    ensures
        decimal(n).len() >= 1,
        '0' <= decimal(n)[0] <= '9',
    decreases n,
{
    if n >= 10 {
        lemma_decimal_starts_with_a_digit(n / 10);
    }
}

/// Different numbers are written differently.
pub proof fn lemma_decimals_look_different(a: nat, b: nat)
    requires
        decimal(a) == decimal(b),
    ensures
        a == b,
    decreases a,
{
    lemma_decimal_is_plain(a / 10);
    lemma_decimal_is_plain(b / 10);
    assert(decimal(a).last() == digit(a % 10));
    assert(decimal(b).last() == digit(b % 10));
    if a >= 10 && b >= 10 {
        assert(decimal(a).drop_last() =~= decimal(a / 10));
        assert(decimal(b).drop_last() =~= decimal(b / 10));
        lemma_decimals_look_different(a / 10, b / 10);
    }
}

/// No machine number has more than twenty digits.
pub proof fn lemma_decimal_of_u64(n: u64)
    ensures
        decimal(n as nat).len() <= 20,
{
    reveal_with_fuel(ten_to, 21);
    lemma_decimal_length(n as nat, 20);
}

/// `core::str::from_utf8`: bytes become text if they are UTF-8, and only then,
/// and the text is the one that those bytes encode.
#[verifier::external_body]
fn from_utf8(bytes: &[u8]) -> (text: Option<&str>)
    ensures
        text is Some <==> valid_utf8(bytes@),
        text matches Some(s) ==> encode_utf8(s@) == bytes@,
{
    core::str::from_utf8(bytes).ok()
}

/// A fixed-capacity sink for text, so that it can be formatted on the stack.
///
/// A write that would overflow `N` is rejected whole rather than panicking or
/// leaving a truncated fragment behind. The view is the text written so far.
pub struct TextBuf<const N: usize> {
    buf: [u8; N],
    len: usize,
}

impl<const N: usize> View for TextBuf<N> {
    type V = Seq<char>;

    closed spec fn view(&self) -> Seq<char> {
        decode_utf8(self.buf@.subrange(0, self.len as int))
    }
}

impl<const N: usize> TextBuf<N> {
    #[verifier::type_invariant]
    spec fn holds_text(self) -> bool {
        &&& self.len <= N
        &&& valid_utf8(self.buf@.subrange(0, self.len as int))
    }

    /// Creates an empty buffer.
    #[must_use]
    pub fn new() -> (text: Self)
        ensures
            text@ == Seq::<char>::empty(),
    {
        let buf: [u8; N] = [0u8; N];
        proof {
            assert(buf@.subrange(0, 0) =~= Seq::<u8>::empty());
        }
        TextBuf { buf, len: 0 }
    }

    /// The text written so far.
    #[must_use]
    pub fn as_str(&self) -> (text: &str)
        ensures
            text@ == self@,
            size(self@) <= N,
    {
        proof {
            use_type_invariant(&*self);
            vstd::utf8::decode_utf8_encode_utf8(self.buf@.subrange(0, self.len as int));
        }
        let bytes = vstd::slice::slice_subrange(self.buf.as_slice(), 0, self.len);
        match from_utf8(bytes) {
            Some(text) => {
                proof {
                    vstd::utf8::encode_utf8_decode_utf8(text@);
                }
                text
            },
            // Only whole pieces of text are ever appended, so the prefix is
            // valid UTF-8 by construction.
            None => "",
        }
    }

    /// Appends `text`, or leaves the buffer as it was if there is no room for
    /// all of it.
    ///
    /// # Errors
    ///
    /// [`Full`] if the room that is left is less than `text` takes up.
    pub fn write_str(&mut self, text: &str) -> (r: Result<(), Full>)
        ensures
            r is Ok <==> fits(old(self)@, text@, N as nat),
            final(self)@ == with_piece(old(self)@, text@, N as nat),
            r is Ok ==> final(self)@ == old(self)@ + text@,
            r is Err ==> final(self)@ == old(self)@,
    {
        proof {
            vstd::utf8::encode_utf8_valid_utf8(text@);
            vstd::utf8::encode_utf8_decode_utf8(text@);
        }
        self.append(text.as_bytes())
    }

    /// Appends `n` in decimal, or leaves the buffer as it was if there is no
    /// room for all of it.
    ///
    /// # Errors
    ///
    /// [`Full`] if the room that is left is less than the digits take up.
    #[verifier::rlimit(30)]
    pub fn write_decimal(&mut self, n: u64) -> (r: Result<(), Full>)
        ensures
            r is Ok <==> fits(old(self)@, decimal(n as nat), N as nat),
            final(self)@ == with_piece(old(self)@, decimal(n as nat), N as nat),
            r is Ok ==> final(self)@ == old(self)@ + decimal(n as nat),
            r is Err ==> final(self)@ == old(self)@,
    {
        let mut digits: [u8; 20] = [0u8; 20];
        let mut at: usize = 20;
        let mut rest: u64 = n;
        proof {
            lemma_decimal_of_u64(n);
            lemma_decimal_is_plain(n as nat);
            vstd::utf8::is_ascii_chars_encode_utf8(decimal(n as nat));
            vstd::utf8::encode_utf8_valid_utf8(decimal(n as nat));
            vstd::utf8::encode_utf8_decode_utf8(decimal(n as nat));
        }
        let ghost all = decimal(n as nat);
        while rest >= 10
            invariant
                all.len() <= 20,
                at <= 20,
                all == decimal(n as nat),
                all.len() == decimal(rest as nat).len() + (20 - at),
                forall|i: int|
                    0 <= i < decimal(rest as nat).len() ==> #[trigger] all[i] == decimal(
                        rest as nat,
                    )[i],
                forall|i: int| at <= i < 20 ==> #[trigger] digits@[i] == all[i - 20 + all.len()] as u8,
            decreases rest,
        {
            proof {
                lemma_decimal_is_plain((rest / 10) as nat);
            }
            let ghost shown = decimal(rest as nat);
            at = at - 1;
            digits[at] = 48 + (rest % 10) as u8;
            rest = rest / 10;
            assert(shown == decimal(rest as nat).push(shown.last()));
            assert(all[shown.len() - 1] == shown.last());
        }
        at = at - 1;
        digits[at] = 48 + rest as u8;
        let piece = vstd::slice::slice_subrange(digits.as_slice(), at, 20);
        assert(all[0] == decimal(rest as nat)[0]);
        assert(piece@ =~= encode_utf8(all));
        self.append(piece)
    }

    #[verifier::rlimit(30)]
    fn append(&mut self, piece: &[u8]) -> (r: Result<(), Full>)
        requires
            valid_utf8(piece@),
        ensures
            r is Ok <==> fits(old(self)@, decode_utf8(piece@), N as nat),
            final(self)@ == with_piece(old(self)@, decode_utf8(piece@), N as nat),
    {
        proof {
            use_type_invariant(&*self);
        }
        let ghost held = self.buf@.subrange(0, self.len as int);
        proof {
            vstd::utf8::decode_utf8_encode_utf8(held);
            vstd::utf8::decode_utf8_encode_utf8(piece@);
        }
        let room: usize = N - self.len;
        if piece.len() > room {
            return Err(Full);
        }
        let mut buf: [u8; N] = self.buf;
        let start: usize = self.len;
        let mut i: usize = 0;
        while i < piece.len()
            invariant
                i <= piece.len(),
                start + piece.len() <= N,
                start == held.len(),
                forall|k: int| 0 <= k < start + i ==> #[trigger] buf@[k] == (held + piece@)[k],
            decreases piece.len() - i,
        {
            buf[start + i] = piece[i];
            i = i + 1;
        }
        proof {
            assert(buf@.subrange(0, start + piece@.len()) =~= held + piece@);
            lemma_bytes_of_joined(decode_utf8(held), decode_utf8(piece@));
            vstd::utf8::encode_utf8_decode_utf8(decode_utf8(held) + decode_utf8(piece@));
            vstd::utf8::valid_utf8_concat(held, piece@);
        }
        *self = TextBuf { buf, len: start + piece.len() };
        Ok(())
    }
}

impl<const N: usize> Default for TextBuf<N> {
    fn default() -> (text: Self)
        ensures
            text@ == Seq::<char>::empty(),
    {
        Self::new()
    }
}

/// A text takes up one byte for an ASCII character, and two, three or four for
/// one beyond U+007F, U+07FF and U+FFFF.
pub proof fn law_size_is_counted_in_bytes(text: Seq<char>, c: char)
    ensures
        size(Seq::empty()) == 0,
        size(text.push(c)) == size(text) + if (c as u32) < 0x80 {
            1int
        } else if (c as u32) < 0x800 {
            2
        } else if (c as u32) < 0x1_0000 {
            3
        } else {
            4
        },
{
    let one = seq![c];
    assert(text.push(c) =~= text + one);
    lemma_bytes_of_joined(text, one);
    reveal_with_fuel(encode_utf8, 2);
    assert(one.drop_first() =~= seq![]);
    vstd::utf8::char_is_scalar(c);
}

/// A piece goes in whole if its bytes and those already there are at most as many
/// as the buffer holds, and otherwise not at all.
pub proof fn law_piece_goes_in_whole_or_not_at_all(
    text: Seq<char>,
    piece: Seq<char>,
    capacity: nat,
)
    ensures
        fits(text, piece, capacity) <==> size(text) + size(piece) <= capacity,
        size(text) + size(piece) <= capacity ==> with_piece(text, piece, capacity) == text + piece,
        size(text) + size(piece) > capacity ==> with_piece(text, piece, capacity) == text,
{
}

/// Pieces are joined in order, and nothing comes between them.
pub proof fn law_pieces_are_joined_in_order(pieces: Seq<Seq<char>>, last: Seq<char>)
    ensures
        joined(Seq::empty()) == Seq::<char>::empty(),
        joined(pieces.push(last)) == joined(pieces) + last,
    decreases pieces.len(),
{
    let all = pieces.push(last);
    if pieces.len() == 0 {
        reveal_with_fuel(joined, 2);
        assert(joined(all) =~= joined(pieces) + last);
    } else {
        assert(all.drop_first() =~= pieces.drop_first().push(last));
        law_pieces_are_joined_in_order(pieces.drop_first(), last);
        assert(joined(all) =~= joined(pieces) + last);
    }
}

/// The digits stand for the number: the one that has `e` digits behind it counts
/// the `e`-th power of ten. There are just as many as it takes, so that the first
/// is zero only for zero itself.
pub proof fn law_digits_stand_for_the_number(n: nat)
    ensures
        ({
            let text = decimal(n);
            let len = text.len();
            &&& len >= 1
            &&& n < pow(10, len)
            &&& len > 1 ==> n >= pow(10, (len - 1) as nat)
            &&& forall|i: int|
                0 <= i < len ==> #[trigger] text[i] as int == '0' as int + n as int / pow(
                    10,
                    (len - 1 - i) as nat,
                ) % 10
        }),
    decreases n,
{
    let text = decimal(n);
    let len = text.len();
    reveal(pow);
    lemma_pow0(10);
    lemma_pow1(10);
    if n >= 10 {
        let front = decimal(n / 10);
        law_digits_stand_for_the_number(n / 10);
        assert(pow(10, len) == 10 * pow(10, (len - 1) as nat));
        assert(len == front.len() + 1);
        if front.len() > 1 {
            assert(pow(10, (len - 1) as nat) == 10 * pow(10, (len - 2) as nat));
        }
        assert forall|i: int| 0 <= i < len implies #[trigger] text[i] as int == '0' as int
            + n as int / pow(10, (len - 1 - i) as nat) % 10 by {
            let e = (len - 1 - i) as nat;
            if e == 0 {
                assert(n as int / 1 == n as int);
            } else {
                let p = pow(10, (e - 1) as nat);
                assert(text[i] == front[i]);
                assert(pow(10, e) == 10 * p);
                lemma_pow_positive(10, (e - 1) as nat);
                lemma_div_denominator(n as int, 10, p);
            }
        }
    } else {
        assert(n as int / 1 == n as int);
    }
}

} // verus!
