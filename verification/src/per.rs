//! Permission bits attached to a resource: create, read, update, delete.
//!
//! Creating, updating and deleting each imply reading, so their flags carry
//! the read bit as well.
use vstd::prelude::*;

verus! {

/// The bit of the `c` letter alone.
pub const BIT_C: u8 = 0b0001;

/// The bit of the `r` letter alone.
pub const BIT_R: u8 = 0b0010;

/// The bit of the `u` letter alone.
pub const BIT_U: u8 = 0b0100;

/// The bit of the `d` letter alone.
pub const BIT_D: u8 = 0b1000;

/// Flag of the create permission (implies read).
pub const PER_C: u8 = 0b0011;

/// Flag of the read permission.
pub const PER_R: u8 = 0b0010;

/// Flag of the update permission (implies read).
pub const PER_U: u8 = 0b0110;

/// Flag of the delete permission (implies read).
pub const PER_D: u8 = 0b1010;

/// A set of permission bits: only the four flag bits can be set.
#[derive(Clone, Copy, Debug)]
pub struct Per {
    bits: u8,
}

impl View for Per {
    type V = u8;

    /// The permission bits.
    closed spec fn view(&self) -> u8 {
        self.bits
    }
}

/// Whether every bit of `mask` is set in `bits`.
pub open spec fn has_bits(bits: u8, mask: u8) -> bool {
    bits & mask == mask
}

/// The letters that name a permission set: `c`, `u` and `d` for their bits,
/// and `r` only when the read bit stands alone (every other letter implies it).
pub open spec fn spec_letters(bits: u8) -> Seq<char> {
    let c = has_bits(bits, BIT_C);
    let r = has_bits(bits, BIT_R);
    let u = has_bits(bits, BIT_U);
    let d = has_bits(bits, BIT_D);
    opt_letter(c, 'c') + opt_letter(r && !(c || u || d), 'r') + opt_letter(u, 'u') + opt_letter(
        d,
        'd',
    )
}

/// The one-letter sequence `ch` when `b` holds, else nothing.
pub open spec fn opt_letter(b: bool, ch: char) -> Seq<char> {
    if b {
        seq![ch]
    } else {
        Seq::<char>::empty()
    }
}

/// Whether one of the words is the single letter `c`.
pub open spec fn mentions(words: Seq<Seq<char>>, c: char) -> bool {
    exists|i: int| 0 <= i < words.len() && #[trigger] words[i] == seq![c]
}

/// The bits that a list of letter words stands for: each of `c`, `r`, `u`,
/// `d` sets its own bit, any other word is ignored.
pub open spec fn letters_bits(words: Seq<Seq<char>>) -> u8 {
    ((if mentions(words, 'c') { 1int } else { 0int })
        + (if mentions(words, 'r') { 2int } else { 0int })
        + (if mentions(words, 'u') { 4int } else { 0int })
        + (if mentions(words, 'd') { 8int } else { 0int })) as u8
}

/// The words of a letter list, each letter its own word.
pub open spec fn letter_words(letters: Seq<char>) -> Seq<Seq<char>> {
    letters.map_values(|c: char| seq![c])
}

/// Whether the serialized letters of `bits` read back as the same bits: no
/// bit above the four flags, and the read bit not hidden behind another one.
pub open spec fn letters_round_trip(bits: u8) -> bool {
    &&& bits < 16
    &&& has_bits(bits, BIT_R) ==> !(has_bits(bits, BIT_C) || has_bits(bits, BIT_U) || has_bits(
        bits,
        BIT_D,
    ))
}

impl Per {
    /// Only the four flag bits are ever set.
    #[verifier::type_invariant]
    spec fn inv(self) -> bool {
        self.bits < 16
    }

    /// The empty permission set.
    pub fn empty() -> (p: Per)
        ensures
            p@ == 0,
    {
        Per { bits: 0 }
    }

    /// The permission set with the flag bits of `bits`; bits above the four
    /// flags are dropped.
    pub fn from_bits(bits: u8) -> (p: Per)
        ensures
            p@ == bits & 0b1111,
    {
        let b = bits & 0b1111;
        assert(b < 16) by (bit_vector)
            requires
                b == bits & 0b1111,
        ;
        Per { bits: b }
    }

    /// The permission bits.
    pub fn bits(&self) -> (b: u8)
        ensures
            b == self@,
            b < 16,
    {
        proof {
            use_type_invariant(self);
        }
        self.bits
    }

    /// Whether every bit of `other` is also set in `self`.
    pub fn contains(&self, other: &Per) -> (r: bool)
        ensures
            r == has_bits(self@, other@),
    {
        self.bits & other.bits == other.bits
    }

    /// The letters under which the set is written out, in the order
    /// `c`, `r`, `u`, `d`; see [`spec_letters`].
    pub fn letters(&self) -> (v: Vec<char>)
        ensures
            v@ == spec_letters(self@),
    {
        let c = self.bits & BIT_C == BIT_C;
        let r = self.bits & BIT_R == BIT_R;
        let u = self.bits & BIT_U == BIT_U;
        let d = self.bits & BIT_D == BIT_D;
        let mut v: Vec<char> = Vec::new();
        if c {
            v.push('c');
        }
        if r && !(c || u || d) {
            v.push('r');
        }
        if u {
            v.push('u');
        }
        if d {
            v.push('d');
        }
        assert(v@ =~= spec_letters(self.bits));
        v
    }

    /// Reads a permission set back from its letter words; words other than
    /// `c`, `r`, `u` and `d` are ignored.
    pub fn from_letters(words: &Vec<String>) -> (p: Per)
        ensures
            p@ == letters_bits(words@.map_values(|w: String| w@)),
    {
        let ghost ws = words@.map_values(|w: String| w@);
        let mut c = false;
        let mut r = false;
        let mut u = false;
        let mut d = false;
        let mut i: usize = 0;
        while i < words.len()
            invariant
                i <= words.len(),
                ws == words@.map_values(|w: String| w@),
                c == mentions(ws.take(i as int), 'c'),
                r == mentions(ws.take(i as int), 'r'),
                u == mentions(ws.take(i as int), 'u'),
                d == mentions(ws.take(i as int), 'd'),
            decreases words.len() - i,
        {
            let w = words[i].as_str();
            let ghost prev = ws.take(i as int);
            let ghost next = ws.take(i + 1);
            assert(next =~= prev.push(ws[i as int]));
            assert(ws[i as int] == w@);
            let single = w.unicode_len() == 1;
            let ch = if single {
                w.get_char(0)
            } else {
                ' '
            };
            proof {
                if single {
                    assert(w@ =~= seq![ch]) by {
                        assert(w@.len() == 1);
                    }
                }
                assert forall|l: char|
                    mentions(next, l) == (mentions(prev, l) || (single && ch == l)) by {
                    if mentions(next, l) {
                        let k = choose|k: int| 0 <= k < next.len() && #[trigger] next[k] == seq![l];
                        if k < prev.len() {
                            assert(prev[k] == seq![l]);
                        } else {
                            assert(w@ == seq![l]);
                            assert(w@.len() == 1);
                            assert(w@[0] == l);
                        }
                    }
                    if mentions(prev, l) {
                        let k = choose|k: int| 0 <= k < prev.len() && #[trigger] prev[k] == seq![l];
                        assert(next[k] == seq![l]);
                    }
                    if single && ch == l {
                        assert(next[i as int] == seq![l]);
                    }
                }
            }
            if single {
                if ch == 'c' {
                    c = true;
                } else if ch == 'r' {
                    r = true;
                } else if ch == 'u' {
                    u = true;
                } else if ch == 'd' {
                    d = true;
                }
            }
            i = i + 1;
        }
        assert(ws.take(words.len() as int) =~= ws);
        let mut bits: u8 = 0;
        if c {
            bits = bits + 1;
        }
        if r {
            bits = bits + 2;
        }
        if u {
            bits = bits + 4;
        }
        if d {
            bits = bits + 8;
        }
        Per { bits }
    }
}

/// Appending a letter when `b` holds adds exactly that letter to what the
/// sequence contains.
proof fn lemma_contains_opt(a: Seq<char>, b: bool, ch: char)
    ensures
        forall|x: char|
            #[trigger] (a + opt_letter(b, ch)).contains(x) == (
            a.contains(x) || (b && ch == x)),
{
    let t = a + opt_letter(b, ch);
    assert forall|x: char| #[trigger] t.contains(x) == (a.contains(x) || (b && ch == x)) by {
        if b {
            assert(t =~= a.push(ch));
            if t.contains(x) {
                let k = choose|k: int| 0 <= k < t.len() && t[k] == x;
                if k < a.len() {
                    assert(a[k] == x);
                }
            }
            if a.contains(x) {
                let k = choose|k: int| 0 <= k < a.len() && a[k] == x;
                assert(t[k] == x);
            }
            if ch == x {
                assert(t[a.len() as int] == x);
            }
        } else {
            assert(t =~= a);
        }
    }
}

/// The bits that the letters of `bits` read back as: the four flag bits,
/// without the read bit when another letter is written (that letter already
/// implies it).
pub open spec fn read_back_bits(bits: u8) -> u8 {
    if bits & 0b1101 != 0 {
        bits & 0b1101
    } else {
        bits & 0b0010
    }
}

/// Reading back the letters of a permission set keeps its `c`, `u` and `d`
/// bits and keeps the read bit only where it stands alone (so `PER_C` comes
/// back as `BIT_C`); writing out what was read gives the same letters again.
pub proof fn lemma_letters_read_back(bits: u8)
    ensures
        letters_bits(letter_words(spec_letters(bits))) == read_back_bits(bits),
        spec_letters(read_back_bits(bits)) == spec_letters(bits),
{
    let ls = spec_letters(bits);
    let ws = letter_words(ls);
    let c = has_bits(bits, BIT_C);
    let r = has_bits(bits, BIT_R);
    let u = has_bits(bits, BIT_U);
    let d = has_bits(bits, BIT_D);
    assert forall|l: char| #[trigger] mentions(ws, l) <==> ls.contains(l) by {
        if mentions(ws, l) {
            let k = choose|k: int| 0 <= k < ws.len() && #[trigger] ws[k] == seq![l];
            assert(ws[k] == seq![ls[k]]);
            assert(seq![ls[k]][0] == seq![l][0]);
        }
        if ls.contains(l) {
            let k = choose|k: int| 0 <= k < ls.len() && ls[k] == l;
            assert(ws[k] == seq![l]);
        }
    }
    let e = Seq::<char>::empty();
    let s1 = opt_letter(c, 'c');
    let s2 = opt_letter(r && !(c || u || d), 'r');
    let s3 = opt_letter(u, 'u');
    let s4 = opt_letter(d, 'd');
    assert(ls == s1 + s2 + s3 + s4);
    assert(s1 =~= e + s1);
    lemma_contains_opt(e, c, 'c');
    lemma_contains_opt(s1, r && !(c || u || d), 'r');
    lemma_contains_opt(s1 + s2, u, 'u');
    lemma_contains_opt(s1 + s2 + s3, d, 'd');
    assert(ls.contains('c') == c);
    assert(ls.contains('r') == (r && !(c || u || d)));
    assert(ls.contains('u') == u);
    assert(ls.contains('d') == d);
    let rb = read_back_bits(bits);
    assert((if bits & 1 == 1 { 1u8 } else { 0u8 }) + (if bits & 2 == 2 && !(bits & 1 == 1
        || bits & 4 == 4 || bits & 8 == 8) {
        2u8
    } else {
        0u8
    }) + (if bits & 4 == 4 { 4u8 } else { 0u8 }) + (if bits & 8 == 8 { 8u8 } else { 0u8 }) == (
    if bits & 0b1101 != 0 {
        bits & 0b1101
    } else {
        bits & 0b0010
    })) by (bit_vector);
    assert(rb & 1 == 1 <==> bits & 1 == 1) by (bit_vector)
        requires
            rb == (if bits & 0b1101 != 0 {
                bits & 0b1101
            } else {
                bits & 0b0010
            }),
    ;
    assert(rb & 4 == 4 <==> bits & 4 == 4) by (bit_vector)
        requires
            rb == (if bits & 0b1101 != 0 {
                bits & 0b1101
            } else {
                bits & 0b0010
            }),
    ;
    assert(rb & 8 == 8 <==> bits & 8 == 8) by (bit_vector)
        requires
            rb == (if bits & 0b1101 != 0 {
                bits & 0b1101
            } else {
                bits & 0b0010
            }),
    ;
    assert((rb & 2 == 2 && !(rb & 1 == 1 || rb & 4 == 4 || rb & 8 == 8)) <==> (bits & 2 == 2 && !(
    bits & 1 == 1 || bits & 4 == 4 || bits & 8 == 8))) by (bit_vector)
        requires
            rb == (if bits & 0b1101 != 0 {
                bits & 0b1101
            } else {
                bits & 0b0010
            }),
    ;
}

/// What reading back its letters gives of a permission set: the set
/// without its read bit when another flag is set (that flag already implies
/// it), else the set itself; written out again, it gives the same letters.
pub proof fn lemma_per_read_back(p: Per)
    requires
        p@ < 16,
    ensures
        letters_bits(letter_words(spec_letters(p@))) == (if p@ & 0b1101 != 0 {
            p@ & !0b0010u8
        } else {
            p@
        }),
        spec_letters(letters_bits(letter_words(spec_letters(p@)))) == spec_letters(p@),
{
    let b = p@;
    lemma_letters_read_back(b);
    assert(b < 16 ==> (if b & 0b1101 != 0 {
        b & 0b1101
    } else {
        b & 0b0010
    }) == (if b & 0b1101 != 0 {
        b & !0b0010u8
    } else {
        b
    })) by (bit_vector);
}

/// Reading back the letters of a permission set gives the set again,
/// whenever no bit lies above the four flags and the read bit is not
/// implied by another letter (those sets lose their read bit on the way).
pub proof fn lemma_letters_round_trip(bits: u8)
    requires
        letters_round_trip(bits),
    ensures
        letters_bits(letter_words(spec_letters(bits))) == bits,
{
    lemma_letters_read_back(bits);
    assert(bits < 16 && (bits & 2 == 2 ==> !(bits & 1 == 1 || bits & 4 == 4 || bits & 8 == 8))
        ==> (if bits & 0b1101 != 0 {
        bits & 0b1101
    } else {
        bits & 0b0010
    }) == bits) by (bit_vector);
}

/// Creating, updating and deleting each carry the read permission, and
/// none of them carries another of the three.
pub proof fn lemma_flags_imply_read()
    ensures
        has_bits(PER_C, PER_R),
        has_bits(PER_U, PER_R),
        has_bits(PER_D, PER_R),
        !has_bits(PER_C, PER_U) && !has_bits(PER_C, PER_D),
        !has_bits(PER_U, PER_C) && !has_bits(PER_U, PER_D),
        !has_bits(PER_D, PER_C) && !has_bits(PER_D, PER_U),
{
    assert(3u8 & 2u8 == 2u8) by (bit_vector);
    assert(6u8 & 2u8 == 2u8) by (bit_vector);
    assert(10u8 & 2u8 == 2u8) by (bit_vector);
    assert(3u8 & 6u8 != 6u8 && 3u8 & 10u8 != 10u8) by (bit_vector);
    assert(6u8 & 3u8 != 3u8 && 6u8 & 10u8 != 10u8) by (bit_vector);
    assert(10u8 & 3u8 != 3u8 && 10u8 & 6u8 != 6u8) by (bit_vector);
}

} // verus!
