use vstd::prelude::*;
use vstd::string::*;
use vstd::utf8::{decode_utf8, encode_scalar, encode_utf8, valid_utf8};

use crate::error::Error;
use crate::header::KargEmbedAreas;
use crate::region::Region;

verus! {

broadcast use vstd::utf8::encode_utf8_decode_utf8, vstd::utf8::encode_utf8_valid_utf8;

/// Character that pads a karg area after its arguments.
pub const KARG_PAD: char = '#';
/// Byte that pads a karg area after its arguments.
pub const KARG_PAD_BYTE: u8 = 0x23;

/// Whether `c` has the Unicode White_Space property.
pub open spec fn is_unicode_whitespace(c: char) -> bool {
    ||| '\u{9}' <= c <= '\u{d}'
    ||| c == ' '
    ||| c == '\u{85}'
    ||| c == '\u{a0}'
    ||| c == '\u{1680}'
    ||| '\u{2000}' <= c <= '\u{200a}'
    ||| c == '\u{2028}'
    ||| c == '\u{2029}'
    ||| c == '\u{202f}'
    ||| c == '\u{205f}'
    ||| c == '\u{3000}'
}

pub open spec fn trim_start(s: Seq<char>) -> Seq<char>
    decreases s.len(),
{
    if s.len() > 0 && is_unicode_whitespace(s[0]) {
        trim_start(s.drop_first())
    } else {
        s
    }
}

pub open spec fn trim_end(s: Seq<char>) -> Seq<char>
    decreases s.len(),
{
    if s.len() > 0 && is_unicode_whitespace(s.last()) {
        trim_end(s.drop_last())
    } else {
        s
    }
}

/// `s` without its leading and trailing whitespace.
pub open spec fn trim(s: Seq<char>) -> Seq<char> {
    trim_end(trim_start(s))
}

/// `s` without the run of `c` that ends it.
pub open spec fn strip_trailing(s: Seq<char>, c: char) -> Seq<char>
    decreases s.len(),
{
    if s.len() > 0 && s.last() == c {
        strip_trailing(s.drop_last(), c)
    } else {
        s
    }
}

/// The arguments that a karg area holds, once decoded from UTF-8.
pub open spec fn area_text(area: Seq<u8>) -> Seq<char> {
    trim(strip_trailing(decode_utf8(area), KARG_PAD))
}

/// The on-disk form of `kargs` in an area of `length` bytes: the trimmed
/// arguments and a newline, in UTF-8, then padding up to `length`.
pub open spec fn formatted_area(kargs: Seq<char>, length: nat) -> Seq<u8> {
    let enc = encode_utf8(trim(kargs)) + seq![0x0Au8];
    enc + Seq::new((length - enc.len()) as nat, |_i: int| KARG_PAD_BYTE)
}

/// Length in bytes of the on-disk form of `kargs` before padding.
pub open spec fn formatted_len(kargs: Seq<char>) -> int {
    encode_utf8(trim(kargs)).len() + 1int
}

/// `n`, or the largest `usize` where `n` is larger.
pub open spec fn saturated(n: int) -> usize {
    if n > usize::MAX {
        usize::MAX
    } else {
        n as usize
    }
}

/// Relies on `String::from_utf8`: it succeeds exactly on valid UTF-8 and then
/// holds the characters that the bytes encode.
#[verifier::external_body]
fn string_from_utf8(b: Vec<u8>) -> (r: Option<String>)
    ensures
        r is Some <==> valid_utf8(b@),
        r matches Some(s) ==> s@ == decode_utf8(b@),
{
    String::from_utf8(b).ok()
}

fn is_whitespace(c: char) -> (r: bool)
    ensures
        r == is_unicode_whitespace(c),
{
    ('\u{9}' <= c && c <= '\u{d}') || c == ' ' || c == '\u{85}' || c == '\u{a0}' || c == '\u{1680}'
        || ('\u{2000}' <= c && c <= '\u{200a}') || c == '\u{2028}' || c == '\u{2029}' || c
        == '\u{202f}' || c == '\u{205f}' || c == '\u{3000}'
}

/// `s` without leading and trailing whitespace.
fn trim_str(s: &str) -> (r: &str)
    ensures
        r@ == trim(s@),
{
    let n = s.unicode_len();
    let mut start: usize = 0;
    assert(s@.subrange(0, n as int) =~= s@);
    while start < n && is_whitespace(s.get_char(start))
        invariant
            n == s@.len(),
            start <= n,
            trim_start(s@) == trim_start(s@.subrange(start as int, n as int)),
        decreases n - start,
    {
        assert(s@.subrange(start as int, n as int).drop_first() =~= s@.subrange(start + 1, n as int));
        start += 1;
    }
    assert(trim_start(s@) == s@.subrange(start as int, n as int));
    let mut end: usize = n;
    while end > start && is_whitespace(s.get_char(end - 1))
        invariant
            n == s@.len(),
            start <= end <= n,
            trim(s@) == trim_end(s@.subrange(start as int, end as int)),
        decreases end,
    {
        assert(s@.subrange(start as int, end as int).drop_last() =~= s@.subrange(start as int, end - 1));
        end -= 1;
    }
    s.substring_char(start, end)
}

/// `s` without the run of pad characters that ends it.
fn strip_pad(s: &str) -> (r: &str)
    ensures
        r@ == strip_trailing(s@, KARG_PAD),
{
    let n = s.unicode_len();
    let mut end: usize = n;
    assert(s@.subrange(0, n as int) =~= s@);
    while end > 0 && s.get_char(end - 1) == KARG_PAD
        invariant
            end <= s@.len(),
            strip_trailing(s@, KARG_PAD) == strip_trailing(s@.subrange(0, end as int), KARG_PAD),
        decreases end,
    {
        assert(s@.subrange(0, end as int).drop_last() =~= s@.subrange(0, end - 1));
        end -= 1;
    }
    s.substring_char(0, end)
}

/// Decodes the arguments that a karg area holds: UTF-8, then without the
/// padding, then without surrounding whitespace.
pub fn decode_area(area: Vec<u8>) -> (r: Result<String, Error>)
    ensures
        r is Ok <==> valid_utf8(area@),
        r matches Ok(s) ==> s@ == area_text(area@),
        r matches Err(e) ==> e is InvalidUtf8,
{
    match string_from_utf8(area) {
        None => Err(Error::InvalidUtf8),
        Some(text) => {
            let stripped = strip_pad(text.as_str());
            let trimmed = trim_str(stripped);
            Ok(String::from_str(trimmed))
        },
    }
}

/// Whether two strings hold the same characters.
pub(crate) fn same_text(a: &str, b: &str) -> (r: bool)
    ensures
        r == (a@ == b@),
{
    let x = a.as_bytes();
    let y = b.as_bytes();
    if x.len() != y.len() {
        proof {
            if a@ == b@ {
                assert(x@ == y@);
            }
        }
        return false;
    }
    let mut i: usize = 0;
    while i < x.len()
        invariant
            x@ == encode_utf8(a@),
            y@ == encode_utf8(b@),
            x@.len() == y@.len(),
            i <= x@.len(),
            forall|j: int| 0 <= j < i ==> x@[j] == y@[j],
        decreases x@.len() - i,
    {
        if x[i] != y[i] {
            return false;
        }
        i += 1;
    }
    assert(x@ =~= y@);
    assert(decode_utf8(encode_utf8(a@)) == a@);
    assert(decode_utf8(encode_utf8(b@)) == b@);
    true
}

impl KargEmbedAreas {
    /// The current kargs, from the contents of every current-kargs area in
    /// the order of `kargs_offsets`. Each area must decode, and all must hold
    /// the same arguments.
    pub fn current_kargs(&self, areas: &Vec<Vec<u8>>) -> (r: Result<String, Error>)
        requires
            areas@.len() == self.kargs_offsets@.len(),
            areas@.len() > 0,
        ensures
            r is Ok <==> forall|k: int| 0 <= k < areas@.len() ==> valid_utf8(#[trigger] areas@[k]@)
                && area_text(areas@[k]@) == area_text(areas@[0]@),
            r matches Ok(s) ==> s@ == area_text(areas@[0]@),
            r matches Err(e) ==> e is InvalidUtf8 || e is KargsMismatch,
            r == Err::<String, Error>(Error::InvalidUtf8) ==> exists|k: int|
                0 <= k < areas@.len() && !valid_utf8(#[trigger] areas@[k]@),
            r matches Err(Error::KargsMismatch { first_offset, first_value, offset, value }) ==> {
                &&& first_offset == self.kargs_offsets@[0]
                &&& first_value@ == area_text(areas@[0]@)
                &&& value@ != first_value@
                &&& exists|k: int| 0 < k < areas@.len() && offset == self.kargs_offsets@[k]
                    && value@ == #[trigger] area_text(areas@[k]@)
            },
    {
        let first = match decode_area(areas[0].clone()) {
            Ok(s) => s,
            Err(e) => {
                return Err(e);
            },
        };
        let mut k: usize = 1;
        while k < areas.len()
            invariant
                areas@.len() == self.kargs_offsets@.len(),
                1 <= k <= areas@.len(),
                valid_utf8(areas@[0]@),
                first@ == area_text(areas@[0]@),
                forall|j: int| 0 <= j < k ==> valid_utf8(#[trigger] areas@[j]@) && area_text(
                    areas@[j]@,
                ) == area_text(areas@[0]@),
            decreases areas@.len() - k,
        {
            let value = match decode_area(areas[k].clone()) {
                Ok(s) => s,
                Err(e) => {
                    return Err(e);
                },
            };
            if !same_text(value.as_str(), first.as_str()) {
                return Err(
                    Error::KargsMismatch {
                        first_offset: self.kargs_offsets[0],
                        first_value: first,
                        offset: self.kargs_offsets[k],
                        value,
                    },
                );
            }
            k += 1;
        }
        Ok(first)
    }

    /// The on-disk form of `kargs` in one of these areas: the trimmed
    /// arguments and a newline, then `#` up to the area length. Fails when
    /// that does not fit in the area.
    pub fn format_embed_area(&self, kargs: &str) -> (r: Result<Vec<u8>, Error>)
        ensures
            formatted_len(kargs@) > self.length ==> r == Err::<Vec<u8>, Error>(
                Error::KargsTooLarge {
                    needed: saturated(formatted_len(kargs@)),
                    capacity: self.length,
                },
            ),
            formatted_len(kargs@) <= self.length ==> (r matches Ok(v) && v@ == formatted_area(
                kargs@,
                self.length as nat,
            )),
    {
        let trimmed = trim_str(kargs);
        let text = trimmed.as_bytes();
        if text.len() >= self.length {
            return Err(Error::KargsTooLarge { needed: text.len().saturating_add(1), capacity: self.length });
        }
        let mut area: Vec<u8> = Vec::new();
        let mut i: usize = 0;
        while i < text.len()
            invariant
                i <= text@.len(),
                area@ == text@.subrange(0, i as int),
            decreases text@.len() - i,
        {
            area.push(text[i]);
            i += 1;
            assert(area@ =~= text@.subrange(0, i as int));
        }
        assert(text@.subrange(0, text@.len() as int) =~= text@);
        area.push(0x0A);
        let ghost enc = area@;
        while area.len() < self.length
            invariant
                enc.len() <= area@.len() <= self.length,
                area@ == enc + Seq::new((area@.len() - enc.len()) as nat, |_i: int| KARG_PAD_BYTE),
            decreases self.length - area@.len(),
        {
            area.push(KARG_PAD_BYTE);
            assert(area@ =~= enc + Seq::new((area@.len() - enc.len()) as nat, |_i: int| KARG_PAD_BYTE));
        }
        Ok(area)
    }

    /// The regions that replace every current-kargs area with the on-disk
    /// form of `kargs`, by ascending offset. Writing them in place and
    /// streaming them give the same image.
    pub fn karg_regions(&self, kargs: &str) -> (r: Result<Vec<Region>, Error>)
        ensures
            formatted_len(kargs@) > self.length ==> r == Err::<Vec<Region>, Error>(
                Error::KargsTooLarge {
                    needed: saturated(formatted_len(kargs@)),
                    capacity: self.length,
                },
            ),
            formatted_len(kargs@) <= self.length ==> (r matches Ok(rs) && rs@.len()
                == self.kargs_offsets@.len() && forall|i: int|
                0 <= i < rs@.len() ==> #[trigger] rs@[i].offset == self.kargs_offsets@[i]
                    && rs@[i].length == self.length && rs@[i].valid() && rs@[i].contents@ == formatted_area(
                    kargs@,
                    self.length as nat,
                )),
    {
        let area = match self.format_embed_area(kargs) {
            Ok(a) => a,
            Err(e) => {
                return Err(e);
            },
        };
        proof {
            lemma_formatted_area_len(kargs@, self.length as nat);
        }
        let mut rs: Vec<Region> = Vec::new();
        let mut i: usize = 0;
        while i < self.kargs_offsets.len()
            invariant
                i <= self.kargs_offsets@.len(),
                area@ == formatted_area(kargs@, self.length as nat),
                area@.len() == self.length,
                rs@.len() == i,
                forall|j: int|
                    0 <= j < i ==> #[trigger] rs@[j].offset == self.kargs_offsets@[j] && rs@[j].length
                        == self.length && rs@[j].contents@ == area@,
            decreases self.kargs_offsets@.len() - i,
        {
            let contents = area.clone();
            assert(contents@ == area@);
            let ghost before = rs@;
            rs.push(Region { offset: self.kargs_offsets[i], length: self.length, contents });
            assert forall|j: int| 0 <= j < i implies rs@[j] == before[j] by {}
            i += 1;
        }
        assert(rs@.len() == self.kargs_offsets@.len());
        assert forall|j: int| 0 <= j < rs@.len() implies #[trigger] rs@[j].offset == self.kargs_offsets@[j]
            && rs@[j].length == self.length && rs@[j].valid() && rs@[j].contents@ == formatted_area(
            kargs@,
            self.length as nat,
        ) by {
            assert(rs@[j].offset == self.kargs_offsets@[j]);
            assert(rs@[j].contents@ == area@);
        }
        Ok(rs)
    }
}

pub(crate) proof fn lemma_formatted_area_len(kargs: Seq<char>, length: nat)
    requires
        formatted_len(kargs) <= length,
    ensures
        formatted_area(kargs, length).len() == length,
{
}

pub open spec fn pad_chars(k: nat) -> Seq<char> {
    Seq::new(k, |_i: int| KARG_PAD)
}

proof fn lemma_encode_concat(a: Seq<char>, b: Seq<char>)
    ensures
        encode_utf8(a + b) == encode_utf8(a) + encode_utf8(b),
    decreases a.len(),
{
    if a.len() > 0 {
        assert((a + b).drop_first() =~= a.drop_first() + b);
        lemma_encode_concat(a.drop_first(), b);
        assert(encode_utf8(a + b) =~= encode_utf8(a) + encode_utf8(b));
    } else {
        assert(a + b =~= b);
    }
}

proof fn lemma_encode_pad(k: nat)
    ensures
        encode_utf8(pad_chars(k)) == Seq::new(k, |_i: int| KARG_PAD_BYTE),
    decreases k,
{
    assert(encode_scalar('#' as u32) == seq![0x23u8]) by {
        assert(('#' as u32) == 0x23u32);
        assert((0x23u32 & 0x7F) as u8 == 0x23u8) by (bit_vector);
    }
    if k > 0 {
        lemma_encode_pad((k - 1) as nat);
        assert(pad_chars(k).drop_first() =~= pad_chars((k - 1) as nat));
        assert(encode_utf8(pad_chars(k)) =~= Seq::new(k, |_i: int| KARG_PAD_BYTE));
    } else {
        assert(pad_chars(k) =~= Seq::<char>::empty());
        assert(Seq::new(k, |_i: int| KARG_PAD_BYTE) =~= Seq::<u8>::empty());
    }
}

proof fn lemma_encode_newline()
    ensures
        encode_utf8(seq!['\n']) == seq![0x0Au8],
{
    assert(('\n' as u32) == 0x0Au32);
    assert((0x0Au32 & 0x7F) as u8 == 0x0Au8) by (bit_vector);
    assert(encode_scalar('\n' as u32) == seq![0x0Au8]);
    assert(seq!['\n'].drop_first() =~= Seq::<char>::empty());
    assert(encode_utf8(Seq::<char>::empty()) =~= Seq::<u8>::empty());
    assert(encode_utf8(seq!['\n']) =~= seq![0x0Au8]);
}

proof fn lemma_strip_pad_chars(x: Seq<char>, k: nat)
    requires
        x.len() > 0,
        x.last() != KARG_PAD,
    ensures
        strip_trailing(x + pad_chars(k), KARG_PAD) == x,
    decreases k,
{
    if k > 0 {
        assert((x + pad_chars(k)).drop_last() =~= x + pad_chars((k - 1) as nat));
        lemma_strip_pad_chars(x, (k - 1) as nat);
    } else {
        assert(x + pad_chars(k) =~= x);
    }
}

proof fn lemma_trim_start_edge(s: Seq<char>)
    ensures
        trim_start(s).len() == 0 || !is_unicode_whitespace(trim_start(s)[0]),
    decreases s.len(),
{
    if s.len() > 0 && is_unicode_whitespace(s[0]) {
        lemma_trim_start_edge(s.drop_first());
    }
}

proof fn lemma_trim_end_edges(s: Seq<char>)
    requires
        s.len() == 0 || !is_unicode_whitespace(s[0]),
    ensures
        trim_end(s).len() == 0 || (!is_unicode_whitespace(trim_end(s)[0])
            && !is_unicode_whitespace(trim_end(s).last())),
    decreases s.len(),
{
    if s.len() > 0 && is_unicode_whitespace(s.last()) {
        lemma_trim_end_edges(s.drop_last());
    }
}

/// Trimming a trimmed string followed by a newline gives it back.
proof fn lemma_trim_newline(t: Seq<char>)
    requires
        t.len() == 0 || (!is_unicode_whitespace(t[0]) && !is_unicode_whitespace(t.last())),
    ensures
        trim(t + seq!['\n']) == t,
{
    let x = t + seq!['\n'];
    if t.len() == 0 {
        assert(x.drop_first() =~= Seq::<char>::empty());
        assert(trim_start(x) == trim_start(x.drop_first()));
        assert(trim_start(x) =~= Seq::<char>::empty());
        assert(t =~= Seq::<char>::empty());
    } else {
        assert(x[0] == t[0]);
        assert(trim_start(x) == x);
        assert(x.drop_last() =~= t);
        assert(trim_end(x) == trim_end(t));
    }
}

/// Formatting kargs into an area and decoding that area gives the trimmed
/// kargs back, whenever the formatted kargs fit in the area.
pub proof fn lemma_karg_round_trip(kargs: Seq<char>, length: nat)
    requires
        formatted_len(kargs) <= length,
    ensures
        valid_utf8(formatted_area(kargs, length)),
        area_text(formatted_area(kargs, length)) == trim(kargs),
{
    let t = trim(kargs);
    let k = (length - formatted_len(kargs)) as nat;
    let chars = t + seq!['\n'] + pad_chars(k);
    lemma_encode_concat(t, seq!['\n']);
    lemma_encode_concat(t + seq!['\n'], pad_chars(k));
    lemma_encode_newline();
    lemma_encode_pad(k);
    assert(encode_utf8(chars) =~= formatted_area(kargs, length));
    assert(decode_utf8(encode_utf8(chars)) == chars);
    lemma_strip_pad_chars(t + seq!['\n'], k);
    lemma_trim_start_edge(kargs);
    lemma_trim_end_edges(trim_start(kargs));
    lemma_trim_newline(t);
}

} // verus!
