//! 128-bit identifiers, kept as 16 raw bytes and rendered in the
//! hyphenated lowercase hex form.

use vstd::prelude::*;
use vstd::string::StrSliceExecFns;
use crate::text::push_char;
use vstd::array::ArrayAdditionalExecFns;

verus! {

/// A 128-bit identifier.
#[derive(Clone, Copy, Hash)]
pub struct Uid {
    bytes: [u8; 16],
}

pub open spec fn hex_char(d: nat) -> char {
    if d == 0 { '0' }
    else if d == 1 { '1' }
    else if d == 2 { '2' }
    else if d == 3 { '3' }
    else if d == 4 { '4' }
    else if d == 5 { '5' }
    else if d == 6 { '6' }
    else if d == 7 { '7' }
    else if d == 8 { '8' }
    else if d == 9 { '9' }
    else if d == 10 { 'a' }
    else if d == 11 { 'b' }
    else if d == 12 { 'c' }
    else if d == 13 { 'd' }
    else if d == 14 { 'e' }
    else { 'f' }
}

pub open spec fn hex_val(c: char) -> nat {
    if c == '0' { 0 }
    else if c == '1' { 1 }
    else if c == '2' { 2 }
    else if c == '3' { 3 }
    else if c == '4' { 4 }
    else if c == '5' { 5 }
    else if c == '6' { 6 }
    else if c == '7' { 7 }
    else if c == '8' { 8 }
    else if c == '9' { 9 }
    else if c == 'a' || c == 'A' { 10 }
    else if c == 'b' || c == 'B' { 11 }
    else if c == 'c' || c == 'C' { 12 }
    else if c == 'd' || c == 'D' { 13 }
    else if c == 'e' || c == 'E' { 14 }
    else { 15 }
}

/// A hex digit; both cases of the letters are read.
pub open spec fn is_hex(c: char) -> bool {
    (48 <= c as u32 && c as u32 <= 57) || (97 <= c as u32 && c as u32 <= 102) || (65 <= c as u32
        && c as u32 <= 70)
}

pub open spec fn hex_pair(b: u8) -> Seq<char> {
    seq![hex_char((b / 16) as nat), hex_char((b % 16) as nat)]
}

pub open spec fn hex_text(bs: Seq<u8>) -> Seq<char>
    decreases bs.len(),
{
    if bs.len() == 0 {
        Seq::empty()
    } else {
        hex_pair(bs[0]) + hex_text(bs.drop_first())
    }
}

/// The hyphenated form: hex groups of 8, 4, 4, 4 and 12 digits.
pub open spec fn uid_text(bs: Seq<u8>) -> Seq<char> {
    hex_text(bs.subrange(0, 4)) + seq!['-'] + hex_text(bs.subrange(4, 6)) + seq!['-'] + hex_text(
        bs.subrange(6, 8),
    ) + seq!['-'] + hex_text(bs.subrange(8, 10)) + seq!['-'] + hex_text(bs.subrange(10, 16))
}

/// Read pairs of lowercase hex digits.
pub open spec fn parse_hex_bytes(s: Seq<char>) -> Option<Seq<u8>>
    decreases s.len(),
{
    if s.len() == 0 {
        Some(Seq::empty())
    } else if s.len() >= 2 && is_hex(s[0]) && is_hex(s[1]) {
        match parse_hex_bytes(s.skip(2)) {
            Some(bs) => Some(seq![(hex_val(s[0]) * 16 + hex_val(s[1])) as u8] + bs),
            None => None,
        }
    } else {
        None
    }
}

/// Read the hyphenated form back into 16 bytes.
pub open spec fn uid_from_text(s: Seq<char>) -> Option<Seq<u8>> {
    if s.len() == 36 && s[8] == '-' && s[13] == '-' && s[18] == '-' && s[23] == '-' {
        let g0 = parse_hex_bytes(s.subrange(0, 8));
        let g1 = parse_hex_bytes(s.subrange(9, 13));
        let g2 = parse_hex_bytes(s.subrange(14, 18));
        let g3 = parse_hex_bytes(s.subrange(19, 23));
        let g4 = parse_hex_bytes(s.subrange(24, 36));
        if g0 is Some && g1 is Some && g2 is Some && g3 is Some && g4 is Some {
            Some(
                g0.unwrap() + g1.unwrap() + g2.unwrap() + g3.unwrap() + g4.unwrap(),
            )
        } else {
            None
        }
    } else {
        None
    }
}

/// The sum of the identifier's bytes.
pub open spec fn byte_sum(bs: Seq<u8>) -> nat
    decreases bs.len(),
{
    if bs.len() == 0 {
        0
    } else {
        (byte_sum(bs.drop_first()) + bs[0]) as nat
    }
}

/// The identifier read as a big-endian number.
pub open spec fn uid_val(bs: Seq<u8>) -> nat
    decreases bs.len(),
{
    if bs.len() == 0 {
        0
    } else {
        (uid_val(bs.drop_last()) * 256 + bs.last()) as nat
    }
}

impl View for Uid {
    type V = Seq<u8>;

    closed spec fn view(&self) -> Seq<u8> {
        self.bytes@
    }
}

/// An identifier always holds exactly 16 bytes.
pub broadcast proof fn lemma_uid_len(u: Uid)
    ensures
        (#[trigger] u@).len() == 16,
{
}

impl PartialEq for Uid {
    fn eq(&self, other: &Self) -> (r: bool) {
        let mut i: usize = 0;
        while i < 16
            invariant
                i <= 16,
                self@.len() == 16,
                other@.len() == 16,
                forall|j: int| 0 <= j < i ==> self@[j] == other@[j],
            decreases 16 - i,
        {
            if self.bytes[i] != other.bytes[i] {
                assert(self@ != other@);
                return false;
            }
            i += 1;
        }
        proof {
            assert(self@ =~= other@);
        }
        true
    }
}

impl vstd::std_specs::cmp::PartialEqSpecImpl for Uid {
    open spec fn obeys_eq_spec() -> bool {
        true
    }

    open spec fn eq_spec(&self, other: &Self) -> bool {
        self@ == other@
    }
}

impl Eq for Uid {

}

impl Uid {
    /// An identifier from its 16 raw bytes.
    pub fn from_bytes(bytes: [u8; 16]) -> (r: Uid)
        ensures
            r@ == bytes@,
    {
        Uid { bytes }
    }

    /// The raw bytes.
    pub fn byte_at(&self, i: usize) -> (r: u8)
        requires
            i < 16,
        ensures
            r == self@[i as int],
    {
        self.bytes[i]
    }

    /// The sum of the 16 bytes; it never exceeds 16 * 255.
    pub fn sum_of_bytes(&self) -> (r: u32)
        ensures
            r == byte_sum(self@),
            r <= 4080,
    {
        let mut acc: u32 = 0;
        let mut i: usize = 0;
        proof {
            lemma_byte_sum_bound(self@.skip(0));
            assert(self@.skip(0) =~= self@);
        }
        while i < 16
            invariant
                i <= 16,
                self@.len() == 16,
                acc == byte_sum(self@) - byte_sum(self@.skip(i as int)),
                acc <= 4080,
            decreases 16 - i,
        {
            proof {
                assert(self@.skip(i as int)[0] == self@[i as int]);
                assert(self@.skip(i as int).drop_first() =~= self@.skip(i + 1));
                lemma_byte_sum_bound(self@.skip(i + 1));
                lemma_byte_sum_bound(self@);
            }
            acc = acc + self.bytes[i] as u32;
            i += 1;
        }
        proof {
            assert(self@.skip(16) =~= Seq::<u8>::empty());
        }
        acc
    }

    /// The identifier's value modulo `m`.
    pub fn value_mod(&self, m: u64) -> (r: u64)
        requires
            0 < m,
        ensures
            r == uid_val(self@) % (m as nat),
            r < m,
    {
        let mut acc: u64 = 0;
        let mut i: usize = 0;
        proof {
            assert(self@.take(0) =~= Seq::<u8>::empty());
            assert(uid_val(Seq::<u8>::empty()) == 0);
            assert(0nat % (m as nat) == 0);
        }
        while i < 16
            invariant
                i <= 16,
                0 < m,
                acc < m,
                self@.len() == 16,
                acc == uid_val(self@.take(i as int)) % (m as nat),
            decreases 16 - i,
        {
            let b = self.bytes[i];
            let ghost pre = self@.take(i as int);
            let wide: u128 = (acc as u128) * 256 + (b as u128);
            let next: u64 = (wide % (m as u128)) as u64;
            proof {
                assert(self@.take(i + 1).drop_last() =~= pre);
                assert(self@.take(i + 1).last() == self@[i as int]);
                assert(uid_val(self@.take(i + 1)) == uid_val(pre) * 256 + self@[i as int]);
                lemma_mod_fold(uid_val(pre), self@[i as int] as nat, m as nat);
                assert(wide == (uid_val(pre) % (m as nat)) * 256 + self@[i as int]);
                assert(wide as nat % (m as nat) == uid_val(self@.take(i + 1)) % (m as nat));
                assert(next == uid_val(self@.take(i + 1)) % (m as nat));
            }
            acc = next;
            i += 1;
        }
        proof {
            assert(self@.take(16) =~= self@);
        }
        acc
    }

    /// The hyphenated lowercase hex form.
    pub fn to_text(&self) -> (r: String)
        ensures
            r@ == uid_text(self@),
    {
        let mut out = String::new();
        let mut i: usize = 0;
        while i < 16
            invariant
                i <= 16,
                self@.len() == 16,
                out@ == uid_text_prefix(self@, i as int),
            decreases 16 - i,
        {
            if i == 4 || i == 6 || i == 8 || i == 10 {
                push_char(&mut out, '-');
            }
            let b = self.bytes[i];
            push_char(&mut out, hex_char_exec(b / 16));
            push_char(&mut out, hex_char_exec(b % 16));
            proof {
                lemma_uid_text_prefix_step(self@, i as int);
            }
            i += 1;
        }
        proof {
            lemma_uid_text_prefix_full(self@);
        }
        out
    }
}

/// The text written after the first `i` bytes are rendered.
pub open spec fn uid_text_prefix(bs: Seq<u8>, i: int) -> Seq<char>
    decreases i,
{
    if i <= 0 {
        Seq::empty()
    } else {
        uid_text_prefix(bs, i - 1) + (if i - 1 == 4 || i - 1 == 6 || i - 1 == 8 || i - 1 == 10 {
            seq!['-'] + hex_pair(bs[i - 1])
        } else {
            hex_pair(bs[i - 1])
        })
    }
}

proof fn lemma_uid_text_prefix_step(bs: Seq<u8>, i: int)
    requires
        0 <= i < bs.len(),
    ensures
        uid_text_prefix(bs, i + 1) == uid_text_prefix(bs, i) + (if i == 4 || i == 6 || i == 8
            || i == 10 {
            seq!['-'] + hex_pair(bs[i])
        } else {
            hex_pair(bs[i])
        }),
{
}

proof fn lemma_hex_text_snoc(bs: Seq<u8>, b: u8)
    ensures
        hex_text(bs.push(b)) == hex_text(bs) + hex_pair(b),
    decreases bs.len(),
{
    if bs.len() == 0 {
        assert(bs.push(b)[0] == b);
        assert(bs.push(b).drop_first() =~= Seq::<u8>::empty());
        assert(hex_text(bs.push(b)) == hex_pair(b) + hex_text(Seq::<u8>::empty()));
        assert(hex_pair(b) + Seq::<char>::empty() =~= hex_pair(b));
        assert(hex_text(bs) + hex_pair(b) =~= hex_pair(b));
    } else {
        assert(bs.push(b)[0] == bs[0]);
        assert(bs.push(b).drop_first() =~= bs.drop_first().push(b));
        lemma_hex_text_snoc(bs.drop_first(), b);
        assert(hex_pair(bs[0]) + (hex_text(bs.drop_first()) + hex_pair(b)) =~= (hex_pair(bs[0])
            + hex_text(bs.drop_first())) + hex_pair(b));
    }
}

proof fn lemma_hex_text_concat(a: Seq<u8>, b: Seq<u8>)
    ensures
        hex_text(a + b) == hex_text(a) + hex_text(b),
    decreases a.len(),
{
    if a.len() == 0 {
        assert(a + b =~= b);
        assert(hex_text(a) + hex_text(b) =~= hex_text(b));
    } else {
        assert((a + b)[0] == a[0]);
        assert((a + b).drop_first() =~= a.drop_first() + b);
        lemma_hex_text_concat(a.drop_first(), b);
        assert(hex_pair(a[0]) + (hex_text(a.drop_first()) + hex_text(b)) =~= (hex_pair(a[0])
            + hex_text(a.drop_first())) + hex_text(b));
    }
}

proof fn lemma_uid_text_prefix_full(bs: Seq<u8>)
    requires
        bs.len() == 16,
    ensures
        uid_text_prefix(bs, 16) == uid_text(bs),
{
    lemma_prefix_is_groups(bs, 4);
    lemma_prefix_group(bs, 4, 6);
    lemma_prefix_group(bs, 6, 8);
    lemma_prefix_group(bs, 8, 10);
    lemma_prefix_group(bs, 10, 16);
    assert(uid_text_prefix(bs, 16) =~= uid_text(bs));
}

/// The first `k` bytes render to the hex of `bs.subrange(0, k)`.
proof fn lemma_prefix_is_groups(bs: Seq<u8>, k: int)
    requires
        bs.len() == 16,
        0 <= k <= 4,
    ensures
        uid_text_prefix(bs, k) == hex_text(bs.subrange(0, k)),
    decreases k,
{
    if k == 0 {
        assert(bs.subrange(0, 0) =~= Seq::<u8>::empty());
    } else {
        lemma_prefix_is_groups(bs, k - 1);
        assert(bs.subrange(0, k) =~= bs.subrange(0, k - 1).push(bs[k - 1]));
        lemma_hex_text_snoc(bs.subrange(0, k - 1), bs[k - 1]);
    }
}

/// Rendering bytes `from..to` appends their hex after a hyphen.
proof fn lemma_prefix_group(bs: Seq<u8>, from: int, to: int)
    requires
        bs.len() == 16,
        from == 4 || from == 6 || from == 8 || from == 10,
        from < to <= 16,
        to <= (if from == 4 { 6int } else if from == 6 { 8int } else if from == 8 { 10int } else {
            16int
        }),
    ensures
        uid_text_prefix(bs, to) == uid_text_prefix(bs, from) + seq!['-'] + hex_text(
            bs.subrange(from, to),
        ),
    decreases to - from,
{
    if to == from + 1 {
        assert(bs.subrange(from, to) =~= Seq::<u8>::empty().push(bs[from]));
        lemma_hex_text_snoc(Seq::<u8>::empty(), bs[from]);
        assert(hex_text(Seq::<u8>::empty()) + hex_pair(bs[from]) =~= hex_pair(bs[from]));
        assert(uid_text_prefix(bs, to) == uid_text_prefix(bs, from) + (seq!['-'] + hex_pair(
            bs[from],
        )));
        assert(uid_text_prefix(bs, from) + (seq!['-'] + hex_pair(bs[from])) =~= uid_text_prefix(
            bs,
            from,
        ) + seq!['-'] + hex_text(bs.subrange(from, to)));
    } else {
        lemma_prefix_group(bs, from, to - 1);
        assert(bs.subrange(from, to) =~= bs.subrange(from, to - 1).push(bs[to - 1]));
        lemma_hex_text_snoc(bs.subrange(from, to - 1), bs[to - 1]);
        assert(uid_text_prefix(bs, to) == uid_text_prefix(bs, to - 1) + hex_pair(bs[to - 1]));
        assert((uid_text_prefix(bs, from) + seq!['-'] + hex_text(bs.subrange(from, to - 1)))
            + hex_pair(bs[to - 1]) =~= uid_text_prefix(bs, from) + seq!['-'] + (hex_text(
            bs.subrange(from, to - 1),
        ) + hex_pair(bs[to - 1])));
    }
}

/// The byte sum of a 16-byte identifier never exceeds 16 * 255.
pub proof fn lemma_byte_sum_bound_pub(bs: Seq<u8>)
    ensures
        byte_sum(bs) <= bs.len() * 255,
{
    lemma_byte_sum_bound(bs);
}

proof fn lemma_byte_sum_bound(bs: Seq<u8>)
    ensures
        byte_sum(bs) <= bs.len() * 255,
    decreases bs.len(),
{
    if bs.len() > 0 {
        lemma_byte_sum_bound(bs.drop_first());
    }
}

/// Folding a modulus through the accumulator keeps the remainder.
proof fn lemma_mod_fold(v: nat, b: nat, m: nat)
    requires
        0 < m,
    ensures
        ((v % m) * 256 + b) % m == (v * 256 + b) % m,
{
    let vi = v as int;
    let mi = m as int;
    vstd::arithmetic::div_mod::lemma_fundamental_div_mod(vi, mi);
    let q = vi / mi;
    let r = vi % mi;
    assert(vi == mi * q + r);
    assert(vi * 256 + b == mi * (q * 256) + (r * 256 + b)) by (nonlinear_arith)
        requires
            vi == mi * q + r,
    ;
    vstd::arithmetic::div_mod::lemma_mod_multiples_vanish(q * 256, r * 256 + b, mi);
    assert((mi * (q * 256) + (r * 256 + b)) % mi == (r * 256 + b) % mi);
    assert(r == (v % m) as int);
}

fn hex_char_exec(d: u8) -> (r: char)
    requires
        d < 16,
    ensures
        r == hex_char(d as nat),
{
    if d == 0 { '0' }
    else if d == 1 { '1' }
    else if d == 2 { '2' }
    else if d == 3 { '3' }
    else if d == 4 { '4' }
    else if d == 5 { '5' }
    else if d == 6 { '6' }
    else if d == 7 { '7' }
    else if d == 8 { '8' }
    else if d == 9 { '9' }
    else if d == 10 { 'a' }
    else if d == 11 { 'b' }
    else if d == 12 { 'c' }
    else if d == 13 { 'd' }
    else if d == 14 { 'e' }
    else { 'f' }
}

fn hex_val_exec(c: char) -> (r: u8)
    requires
        is_hex(c),
    ensures
        r == hex_val(c),
        r < 16,
{
    let cv = c as u32;
    if cv <= 57 {
        (cv - 48) as u8
    } else if cv <= 70 {
        (cv - 55) as u8
    } else {
        (cv - 87) as u8
    }
}

/// Parse the hyphenated form.
pub fn parse_uid(s: &str) -> (r: Option<Uid>)
    ensures
        match r {
            Some(u) => uid_from_text(s@) == Some(u@),
            None => uid_from_text(s@) is None,
        },
{
    if s.unicode_len() != 36 {
        return None;
    }
    if !(s.get_char(8) == '-' && s.get_char(13) == '-' && s.get_char(18) == '-' && s.get_char(23)
        == '-') {
        return None;
    }
    let mut bytes: [u8; 16] = [0; 16];
    let mut i: usize = 0;
    while i < 16
        invariant
            i <= 16,
            s@.len() == 36,
            forall|j: int| 0 <= j < i ==> #[trigger] byte_digits_ok(s@, bytes@, j),
        decreases 16 - i,
    {
        let p: usize = char_pos_exec(i);
        let c0 = s.get_char(p);
        let c1 = s.get_char(p + 1);
        let h0 = is_hex_exec(c0);
        let h1 = is_hex_exec(c1);
        if !h0 || !h1 {
            proof {
                lemma_group_parse_fails(s@, i as int);
            }
            return None;
        }
        let v = hex_val_exec(c0) * 16 + hex_val_exec(c1);
        let ghost pre = bytes@;
        bytes.set(i, v);
        proof {
            assert(bytes@ == pre.update(i as int, v));
            assert forall|j: int| 0 <= j < i + 1 implies #[trigger] byte_digits_ok(
                s@,
                bytes@,
                j,
            ) by {
                if j == i {
                    assert(bytes@[j] == v);
                    assert(char_pos(j) == p);
                } else {
                    assert(byte_digits_ok(s@, pre, j));
                    assert(bytes@[j] == pre[j]);
                }
            }
        }
        i += 1;
    }
    let u = Uid { bytes };
    proof {
        lemma_uid_parse_ok(s@, bytes@);
    }
    Some(u)
}

/// Byte `j` of the identifier is written in hex at its place in `s`.
pub open spec fn byte_digits_ok(s: Seq<char>, bs: Seq<u8>, j: int) -> bool {
    &&& is_hex(s[char_pos(j)])
    &&& is_hex(s[char_pos(j) + 1])
    &&& bs[j] == hex_val(s[char_pos(j)]) * 16 + hex_val(s[char_pos(j) + 1])
}

/// Where byte `j` of the identifier sits in the text.
pub open spec fn char_pos(j: int) -> int {
    2 * j + (if j < 4 { 0int } else if j < 6 { 1int } else if j < 8 { 2int } else if j < 10 {
        3int
    } else {
        4int
    })
}

fn char_pos_exec(j: usize) -> (r: usize)
    requires
        j < 16,
    ensures
        r == char_pos(j as int),
        r <= 34,
{
    2 * j + (if j < 4 { 0 } else if j < 6 { 1 } else if j < 8 { 2 } else if j < 10 { 3 } else { 4 })
}

fn is_hex_exec(c: char) -> (r: bool)
    ensures
        r == is_hex(c),
{
    let cv = c as u32;
    (48 <= cv && cv <= 57) || (97 <= cv && cv <= 102) || (65 <= cv && cv <= 70)
}

/// Pairs of hex digits read back what `hex_text` wrote.
proof fn lemma_parse_hex_text(bs: Seq<u8>)
    ensures
        parse_hex_bytes(hex_text(bs)) == Some(bs),
    decreases bs.len(),
{
    if bs.len() == 0 {
    } else {
        let b = bs[0];
        let s = hex_text(bs);
        assert(s == hex_pair(b) + hex_text(bs.drop_first()));
        assert(s[0] == hex_char((b / 16) as nat));
        assert(s[1] == hex_char((b % 16) as nat));
        assert(is_hex(s[0]) && is_hex(s[1]));
        assert(hex_val(s[0]) == b / 16 && hex_val(s[1]) == b % 16);
        assert(s.skip(2) =~= hex_text(bs.drop_first()));
        lemma_parse_hex_text(bs.drop_first());
        assert(hex_val(s[0]) * 16 + hex_val(s[1]) == b);
        assert(seq![b] + bs.drop_first() =~= bs);
    }
}

/// One group failing to be hex makes the whole parse fail.
proof fn lemma_group_parse_fails(s: Seq<char>, j: int)
    requires
        s.len() == 36,
        0 <= j < 16,
        !(is_hex(s[char_pos(j)]) && is_hex(s[char_pos(j) + 1])),
    ensures
        uid_from_text(s) is None,
{
    if s[8] == '-' && s[13] == '-' && s[18] == '-' && s[23] == '-' {
        if j < 4 {
            lemma_parse_bad_digit(s.subrange(0, 8), 2 * j);
        } else if j < 6 {
            lemma_parse_bad_digit(s.subrange(9, 13), 2 * (j - 4));
        } else if j < 8 {
            lemma_parse_bad_digit(s.subrange(14, 18), 2 * (j - 6));
        } else if j < 10 {
            lemma_parse_bad_digit(s.subrange(19, 23), 2 * (j - 8));
        } else {
            lemma_parse_bad_digit(s.subrange(24, 36), 2 * (j - 10));
        }
    }
}

/// A non-hex character at an even offset stops `parse_hex_bytes`.
proof fn lemma_parse_bad_digit(s: Seq<char>, p: int)
    requires
        s.len() % 2 == 0,
        0 <= p,
        p + 1 < s.len(),
        p % 2 == 0,
        !(is_hex(s[p]) && is_hex(s[p + 1])),
    ensures
        parse_hex_bytes(s) is None,
    decreases s.len(),
{
    if p == 0 {
    } else {
        if s.len() >= 2 && is_hex(s[0]) && is_hex(s[1]) {
            assert(s.skip(2).len() % 2 == 0);
            assert(s.skip(2)[p - 2] == s[p]);
            assert(s.skip(2)[p - 1] == s[p + 1]);
            lemma_parse_bad_digit(s.skip(2), p - 2);
        }
    }
}

/// All groups hex means the parse returns exactly the collected bytes.
proof fn lemma_uid_parse_ok(s: Seq<char>, bs: Seq<u8>)
    requires
        s.len() == 36,
        bs.len() == 16,
        s[8] == '-' && s[13] == '-' && s[18] == '-' && s[23] == '-',
        forall|j: int| 0 <= j < 16 ==> #[trigger] byte_digits_ok(s, bs, j),
    ensures
        uid_from_text(s) == Some(bs),
{
    lemma_uid_group(s, bs, 0, 8, 0, 4);
    lemma_uid_group(s, bs, 9, 13, 4, 6);
    lemma_uid_group(s, bs, 14, 18, 6, 8);
    lemma_uid_group(s, bs, 19, 23, 8, 10);
    lemma_uid_group(s, bs, 24, 36, 10, 16);
    assert(bs.subrange(0, 4) + bs.subrange(4, 6) + bs.subrange(6, 8) + bs.subrange(8, 10)
        + bs.subrange(10, 16) =~= bs);
}

/// One group of the hyphenated text parses to its slice of the bytes.
proof fn lemma_uid_group(s: Seq<char>, bs: Seq<u8>, lo: int, hi: int, blo: int, bhi: int)
    requires
        s.len() == 36,
        bs.len() == 16,
        0 <= lo < hi <= 36,
        0 <= blo < bhi <= 16,
        hi - lo == 2 * (bhi - blo),
        forall|j: int| blo <= j < bhi ==> char_pos(j) == lo + 2 * (j - blo),
        forall|j: int| 0 <= j < 16 ==> #[trigger] byte_digits_ok(s, bs, j),
    ensures
        parse_hex_bytes(s.subrange(lo, hi)) == Some(bs.subrange(blo, bhi)),
{
    let g = s.subrange(lo, hi);
    let b = bs.subrange(blo, bhi);
    assert forall|j: int| 0 <= j < b.len() implies #[trigger] pair_digits_ok(g, b, j) by {
        assert(byte_digits_ok(s, bs, blo + j));
        assert(char_pos(blo + j) == lo + 2 * j);
        assert(g[2 * j] == s[lo + 2 * j]);
        assert(g[2 * j + 1] == s[lo + 2 * j + 1]);
        assert(b[j] == bs[blo + j]);
    }
    lemma_parse_all_hex(g, b);
}

/// Byte `j` of a hyphen-free group is written at offset `2 * j`.
pub open spec fn pair_digits_ok(g: Seq<char>, b: Seq<u8>, j: int) -> bool {
    &&& is_hex(g[2 * j])
    &&& is_hex(g[2 * j + 1])
    &&& b[j] == hex_val(g[2 * j]) * 16 + hex_val(g[2 * j + 1])
}

/// One hyphen-free group of the text parses to its slice of the bytes.
proof fn lemma_parse_all_hex(g: Seq<char>, b: Seq<u8>)
    requires
        g.len() == 2 * b.len(),
        forall|j: int| 0 <= j < b.len() ==> #[trigger] pair_digits_ok(g, b, j),
    ensures
        parse_hex_bytes(g) == Some(b),
    decreases b.len(),
{
    if b.len() == 0 {
        assert(b =~= Seq::<u8>::empty());
    } else {
        assert(pair_digits_ok(g, b, 0));
        assert(is_hex(g[0]) && is_hex(g[1]));
        assert(b[0] == hex_val(g[0]) * 16 + hex_val(g[1]));
        assert forall|j: int| 0 <= j < b.drop_first().len() implies #[trigger] pair_digits_ok(
            g.skip(2),
            b.drop_first(),
            j,
        ) by {
            assert(pair_digits_ok(g, b, j + 1));
            assert(g.skip(2)[2 * j] == g[2 * (j + 1)]);
            assert(g.skip(2)[2 * j + 1] == g[2 * (j + 1) + 1]);
            assert(b.drop_first()[j] == b[j + 1]);
        }
        lemma_parse_all_hex(g.skip(2), b.drop_first());
        assert((hex_val(g[0]) * 16 + hex_val(g[1])) < 256);
        assert(seq![b[0]] + b.drop_first() =~= b);
    }
}

/// Rendering an identifier and parsing the text back yields the same
/// identifier.
pub proof fn lemma_uid_text_roundtrip(bs: Seq<u8>)
    requires
        bs.len() == 16,
    ensures
        uid_from_text(uid_text(bs)) == Some(bs),
{
    let s = uid_text(bs);
    lemma_hex_text_len(bs.subrange(0, 4));
    lemma_hex_text_len(bs.subrange(4, 6));
    lemma_hex_text_len(bs.subrange(6, 8));
    lemma_hex_text_len(bs.subrange(8, 10));
    lemma_hex_text_len(bs.subrange(10, 16));
    assert(s.len() == 36);
    assert(s[8] == '-' && s[13] == '-' && s[18] == '-' && s[23] == '-');
    assert(s.subrange(0, 8) =~= hex_text(bs.subrange(0, 4)));
    assert(s.subrange(9, 13) =~= hex_text(bs.subrange(4, 6)));
    assert(s.subrange(14, 18) =~= hex_text(bs.subrange(6, 8)));
    assert(s.subrange(19, 23) =~= hex_text(bs.subrange(8, 10)));
    assert(s.subrange(24, 36) =~= hex_text(bs.subrange(10, 16)));
    lemma_parse_hex_text(bs.subrange(0, 4));
    lemma_parse_hex_text(bs.subrange(4, 6));
    lemma_parse_hex_text(bs.subrange(6, 8));
    lemma_parse_hex_text(bs.subrange(8, 10));
    lemma_parse_hex_text(bs.subrange(10, 16));
    assert(bs.subrange(0, 4) + bs.subrange(4, 6) + bs.subrange(6, 8) + bs.subrange(8, 10)
        + bs.subrange(10, 16) =~= bs);
}

proof fn lemma_hex_text_len(bs: Seq<u8>)
    ensures
        hex_text(bs).len() == 2 * bs.len(),
    decreases bs.len(),
{
    if bs.len() > 0 {
        lemma_hex_text_len(bs.drop_first());
    }
}

} // verus!
