//! The calculated ETag value type and its canonical text rendering.

use vstd::prelude::*;

verus! {

/// The mathematical content of an [`ETag`]: the digest bytes and, for the
/// multipart form, the number of parts. `n_chunks` is `None` for the simple,
/// non-multipart form.
#[verifier::ext_equal]
pub ghost struct ETagModel {
    pub digest: Seq<u8>,
    pub n_chunks: Option<int>,
}

/// The calculated ETag value: a 16-byte digest plus, in the multipart form,
/// the part count. Immutable once produced.
pub struct ETag {
    digest: [u8; 16],
    n_chunks: Option<usize>,
}

impl View for ETag {
    type V = ETagModel;

    closed spec fn view(&self) -> ETagModel {
        ETagModel {
            digest: self.digest@,
            n_chunks: match self.n_chunks {
                Some(n) => Some(n as int),
                None => None,
            },
        }
    }
}

impl ETag {
    /// Assembles an ETag from its digest and optional part count.
    pub(crate) fn make(digest: [u8; 16], n_chunks: Option<usize>) -> (r: ETag)
        ensures
            r@ == (ETagModel {
                digest: digest@,
                n_chunks: match n_chunks {
                    Some(n) => Some(n as int),
                    None => None,
                },
            }),
    {
        ETag { digest, n_chunks }
    }

    /// The 16-byte digest.
    pub fn digest(&self) -> (r: [u8; 16])
        ensures
            r@ == self@.digest,
    {
        self.digest
    }

    /// The part count: `Some` in the multipart form, `None` in the simple form.
    pub fn n_chunks(&self) -> (r: Option<usize>)
        ensures
            match r {
                Some(n) => self@.n_chunks == Some(n as int),
                None => self@.n_chunks is None,
            },
    {
        self.n_chunks
    }
}

impl From<[u8; 16]> for ETag {
    /// A bare digest converts to the simple, non-multipart form.
    fn from(digest: [u8; 16]) -> (r: Self) {
        ETag { digest, n_chunks: None }
    }
}

impl vstd::std_specs::convert::FromSpecImpl<[u8; 16]> for ETag {
    open spec fn obeys_from_spec() -> bool {
        true
    }

    closed spec fn from_spec(digest: [u8; 16]) -> ETag {
        ETag { digest, n_chunks: None }
    }
}

/// The ASCII code of hexadecimal digit `x`, in lowercase.
pub open spec fn hex_digit(x: int) -> u8
    recommends
        0 <= x < 16,
{
    if x < 10 {
        (48 + x) as u8
    } else {
        (87 + x) as u8
    }
}

/// The ASCII hexadecimal rendering of a byte sequence: two lowercase digits
/// per byte.
pub open spec fn hex_bytes_of(s: Seq<u8>) -> Seq<u8>
    decreases s.len(),
{
    if s.len() == 0 {
        Seq::empty()
    } else {
        hex_bytes_of(s.drop_last()) + seq![
            hex_digit(s.last() as int / 16),
            hex_digit(s.last() as int % 16),
        ]
    }
}

/// The ASCII decimal rendering of a non-negative number.
pub open spec fn dec_bytes_of(n: int) -> Seq<u8>
    recommends
        n >= 0,
    decreases n,
{
    if n < 10 {
        seq![(48 + if n >= 0 { n } else { 0 }) as u8]
    } else {
        dec_bytes_of(n / 10) + seq![(48 + n % 10) as u8]
    }
}

/// The canonical text of an ETag as ASCII bytes: the digest in lowercase
/// hexadecimal, followed by a dash and the part count in the multipart form
/// and by nothing in the simple form.
pub open spec fn etag_ascii(e: ETagModel) -> Seq<u8> {
    match e.n_chunks {
        None => hex_bytes_of(e.digest),
        Some(n) => hex_bytes_of(e.digest) + seq![45u8] + dec_bytes_of(n),
    }
}

/// The canonical text of an ETag.
pub open spec fn etag_chars(e: ETagModel) -> Seq<char> {
    etag_ascii(e).map_values(|b: u8| b as char)
}

/// Relies on `String::from_utf8`: bytes below 128 are valid UTF-8 and decode
/// to exactly those code points, one character per byte. It cannot fail on
/// such bytes.
#[verifier::external_body]
fn ascii_to_string(bytes: Vec<u8>) -> (r: String)
    requires
        forall|j: int| 0 <= j < bytes@.len() ==> bytes@[j] < 128,
    ensures
        r@ == bytes@.map_values(|b: u8| b as char),
{
    String::from_utf8(bytes).expect("not ascii")
}

/// Every byte of a decimal rendering is an ASCII digit.
proof fn lemma_dec_bytes_ascii(n: int)
    ensures
        forall|j: int| 0 <= j < dec_bytes_of(n).len() ==> 48 <= #[trigger] dec_bytes_of(n)[j] < 58,
    decreases n,
{
    if n >= 10 {
        lemma_dec_bytes_ascii(n / 10);
        assert forall|j: int| 0 <= j < dec_bytes_of(n).len() implies 48 <= #[trigger] dec_bytes_of(
            n,
        )[j] < 58 by {
            if j < dec_bytes_of(n / 10).len() {
                assert(dec_bytes_of(n)[j] == dec_bytes_of(n / 10)[j]);
            }
        }
    }
}

/// Appends the decimal rendering of `n` to `out`.
fn push_decimal(out: &mut Vec<u8>, n: usize)
    ensures
        final(out)@ == old(out)@ + dec_bytes_of(n as int),
    decreases n,
{
    if n >= 10 {
        proof {
            vstd::arithmetic::div_mod::lemma_div_decreases(n as int, 10);
        }
        push_decimal(out, n / 10);
        let d: u8 = (n % 10) as u8;
        out.push(48 + d);
        proof {
            assert(out@ =~= old(out)@ + dec_bytes_of(n as int));
        }
    } else {
        out.push(48 + n as u8);
        proof {
            assert(out@ =~= old(out)@ + dec_bytes_of(n as int));
        }
    }
}

impl ETag {
    /// The canonical text rendering: 32 lowercase hexadecimal characters,
    /// followed by `-<part count>` in the multipart form and by nothing in
    /// the simple form.
    pub fn render(&self) -> (r: String)
        ensures
            r@ == etag_chars(self@),
    {
        let mut out: Vec<u8> = Vec::new();
        let mut bi: usize = 0;
        proof {
            assert(self.digest@.subrange(0, 0) =~= Seq::<u8>::empty());
        }
        while bi < 16
            invariant
                bi <= 16,
                out@ == hex_bytes_of(self.digest@.subrange(0, bi as int)),
                forall|j: int| 0 <= j < out@.len() ==> out@[j] < 128,
            decreases 16 - bi,
        {
            let b = self.digest[bi];
            let hi = b / 16;
            let lo = b % 16;
            let hc: u8 = if hi < 10 {
                48 + hi
            } else {
                87 + hi
            };
            let lc: u8 = if lo < 10 {
                48 + lo
            } else {
                87 + lo
            };
            out.push(hc);
            out.push(lc);
            proof {
                let pre = self.digest@.subrange(0, bi as int);
                let now = self.digest@.subrange(0, bi + 1);
                assert(now.drop_last() =~= pre);
                assert(now.last() == self.digest@[bi as int]);
                assert(out@ =~= hex_bytes_of(now));
            }
            bi = bi + 1;
        }
        proof {
            assert(self.digest@.subrange(0, 16) =~= self.digest@);
        }
        if let Some(n) = self.n_chunks {
            out.push(45);
            push_decimal(&mut out, n);
            proof {
                lemma_dec_bytes_ascii(n as int);
                assert(out@ =~= etag_ascii(self@));
            }
        }
        let r = ascii_to_string(out);
        proof {
            assert(r@ =~= etag_chars(self@));
        }
        r
    }
}

/// The numeric value of a hexadecimal digit character, of either case;
/// `None` for any other character.
pub open spec fn hex_val(c: char) -> Option<int> {
    let x = c as u32;
    if 48 <= x <= 57 {
        Some((x - 48) as int)
    } else if 97 <= x <= 102 {
        Some((x - 87) as int)
    } else if 65 <= x <= 70 {
        Some((x - 55) as int)
    } else {
        None
    }
}

/// What parsing text as a 16-byte digest yields: the bytes, unless the text
/// is not exactly 32 hexadecimal digits of either case.
pub open spec fn parse_hex_spec(t: Seq<char>) -> Option<Seq<u8>> {
    if t.len() != 32 {
        None
    } else if exists|j: int| 0 <= j < 32 && (#[trigger] hex_val(t[j])) is None {
        None
    } else {
        Some(
            Seq::new(
                16,
                |i: int| (hex_val(t[2 * i])->Some_0 * 16 + hex_val(t[2 * i + 1])->Some_0) as u8,
            ),
        )
    }
}

/// The numeric value of a hexadecimal digit character.
fn hex_val_exec(c: char) -> (r: Option<u8>)
    ensures
        match r {
            Some(x) => hex_val(c) == Some(x as int),
            None => hex_val(c) is None,
        },
{
    let x = c as u32;
    if 48 <= x && x <= 57 {
        Some((x - 48) as u8)
    } else if 97 <= x && x <= 102 {
        Some((x - 87) as u8)
    } else if 65 <= x && x <= 70 {
        Some((x - 55) as u8)
    } else {
        None
    }
}

/// Parses 32 hexadecimal characters, of either case, as 16 digest bytes.
pub fn parse_hex_digest(s: &str) -> (r: Option<Vec<u8>>)
    ensures
        match parse_hex_spec(s@) {
            Some(d) => r is Some && r->Some_0@ == d,
            None => r is None,
        },
{
    if s.unicode_len() != 32 {
        return None;
    }
    let mut out: Vec<u8> = Vec::new();
    let mut i: usize = 0;
    while i < 16
        invariant
            s@.len() == 32,
            0 <= i <= 16,
            out@.len() == i,
            forall|j: int| 0 <= j < 2 * i ==> (#[trigger] hex_val(s@[j])) is Some,
            forall|j: int|
                0 <= j < i ==> #[trigger] out@[j] as int == hex_val(s@[2 * j])->Some_0 * 16
                    + hex_val(s@[2 * j + 1])->Some_0,
        decreases 16 - i,
    {
        let c0 = s.get_char(2 * i);
        let c1 = s.get_char(2 * i + 1);
        let hi = match hex_val_exec(c0) {
            Some(x) => x,
            None => {
                return None;
            },
        };
        let lo = match hex_val_exec(c1) {
            Some(x) => x,
            None => {
                return None;
            },
        };
        out.push(hi * 16 + lo);
        i = i + 1;
    }
    proof {
        assert forall|j: int| 0 <= j < 32 implies (#[trigger] hex_val(s@[j])) is Some by {
            vstd::arithmetic::div_mod::lemma_fundamental_div_mod(j, 2);
            let m = j / 2;
            assert(j == 2 * m || j == 2 * m + 1);
        }
        assert(out@ =~= parse_hex_spec(s@)->Some_0);
    }
    Some(out)
}

/// A hexadecimal rendering holds two digits per byte.
proof fn lemma_hex_bytes_len(s: Seq<u8>)
    ensures
        hex_bytes_of(s).len() == 2 * s.len(),
    decreases s.len(),
{
    if s.len() > 0 {
        lemma_hex_bytes_len(s.drop_last());
    }
}

/// Positions `2i` and `2i + 1` of a hexadecimal rendering hold the two
/// digits of byte `i`.
proof fn lemma_hex_bytes_index(s: Seq<u8>, i: int)
    requires
        0 <= i < s.len(),
    ensures
        hex_bytes_of(s).len() == 2 * s.len(),
        hex_bytes_of(s)[2 * i] == hex_digit(s[i] as int / 16),
        hex_bytes_of(s)[2 * i + 1] == hex_digit(s[i] as int % 16),
    decreases s.len(),
{
    lemma_hex_bytes_len(s);
    lemma_hex_bytes_len(s.drop_last());
    if i < s.len() - 1 {
        lemma_hex_bytes_index(s.drop_last(), i);
        assert(s.drop_last()[i] == s[i]);
    }
}

/// Rendering a 16-byte digest to hexadecimal text and parsing that text
/// recovers the bytes exactly.
pub proof fn lemma_hex_round_trip(d: Seq<u8>)
    requires
        d.len() == 16,
    ensures
        parse_hex_spec(hex_bytes_of(d).map_values(|b: u8| b as char)) == Some(d),
{
    let t = hex_bytes_of(d).map_values(|b: u8| b as char);
    lemma_hex_bytes_len(d);
    assert forall|j: int| 0 <= j < 32 implies (#[trigger] hex_val(t[j])) is Some by {
        vstd::arithmetic::div_mod::lemma_fundamental_div_mod(j, 2);
        let m = j / 2;
        lemma_hex_bytes_index(d, m);
        vstd::arithmetic::div_mod::lemma_fundamental_div_mod(d[m] as int, 16);
        assert(j == 2 * m || j == 2 * m + 1);
    }
    let parsed = parse_hex_spec(t)->Some_0;
    assert forall|i: int| 0 <= i < 16 implies parsed[i] == d[i] by {
        lemma_hex_bytes_index(d, i);
        vstd::arithmetic::div_mod::lemma_fundamental_div_mod(d[i] as int, 16);
    }
    assert(parsed =~= d);
}

/// Round trip: the first 32 characters of a rendered ETag, parsed back as
/// hexadecimal, give the ETag's digest bytes exactly.
pub proof fn lemma_render_parse_round_trip(e: ETagModel)
    requires
        e.digest.len() == 16,
    ensures
        parse_hex_spec(etag_chars(e).subrange(0, 32)) == Some(e.digest),
{
    lemma_hex_bytes_len(e.digest);
    assert(etag_chars(e).subrange(0, 32) =~= hex_bytes_of(e.digest).map_values(
        |b: u8| b as char,
    ));
    lemma_hex_round_trip(e.digest);
}

/// `a` and `b` are the same character up to letter case.
pub open spec fn same_hex_letter(a: char, b: char) -> bool {
    ||| a == b
    ||| (65 <= a as u32 <= 90 && b as u32 == a as u32 + 32)
    ||| (65 <= b as u32 <= 90 && a as u32 == b as u32 + 32)
}

/// Hexadecimal parsing is case-insensitive: texts that differ only in letter
/// case parse to the same bytes.
pub proof fn lemma_parse_hex_case_insensitive(t1: Seq<char>, t2: Seq<char>)
    requires
        t1.len() == t2.len(),
        forall|j: int| 0 <= j < t1.len() ==> same_hex_letter(t1[j], t2[j]),
    ensures
        parse_hex_spec(t1) == parse_hex_spec(t2),
{
    assert forall|j: int| 0 <= j < t1.len() implies #[trigger] hex_val(t1[j]) == hex_val(t2[j]) by {
        assert(same_hex_letter(t1[j], t2[j]));
    }
    if t1.len() == 32 {
        if exists|j: int| 0 <= j < 32 && (#[trigger] hex_val(t1[j])) is None {
            let j = choose|j: int| 0 <= j < 32 && (#[trigger] hex_val(t1[j])) is None;
            assert(hex_val(t2[j]) is None);
        } else if exists|j: int| 0 <= j < 32 && (#[trigger] hex_val(t2[j])) is None {
            let j = choose|j: int| 0 <= j < 32 && (#[trigger] hex_val(t2[j])) is None;
            assert(hex_val(t1[j]) is None);
        } else {
            assert(parse_hex_spec(t1)->Some_0 =~= parse_hex_spec(t2)->Some_0);
        }
    }
}

/// What `ETag::from` builds: the simple form around the given digest.
pub proof fn lemma_from_digest(d: [u8; 16])
    ensures
        (<ETag as vstd::std_specs::convert::FromSpec<[u8; 16]>>::from_spec(d))@ == (ETagModel {
            digest: d@,
            n_chunks: None,
        }),
{
}

} // verus!
