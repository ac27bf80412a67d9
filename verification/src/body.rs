//! Request bodies: optional gzip compression and `multipart/form-data`.
//!
//! The server unpacks a `Content-Encoding: gzip` request body before it reads
//! a multipart body, so JSON and multipart bodies are compressed alike.

use std::io::Write;

use vstd::prelude::*;
use vstd::utf8::encode_utf8;

use crate::text::{chars_of, push_str, string_of};

verus! {

/// Bodies shorter than this are sent as they are.
pub const MIN_COMPRESS_BYTES: usize = 1024;

/// What gzip (flate2, default level, empty header) makes of `data`.
pub uninterp spec fn gzip_bytes(data: Seq<u8>) -> Seq<u8>;

/// Compresses `data` with `flate2::write::GzEncoder` at the default level.
///
/// Trusted: the result is the gzip stream that flate2 writes for `data`. The
/// encoder's errors come only from the writer it writes into, and writing
/// into a `Vec` does not fail, so the result is always there.
#[verifier::external_body]
fn gzip(data: &[u8]) -> (r: Option<Vec<u8>>)
    ensures
        r is Some,
        r matches Some(c) ==> c@ == gzip_bytes(data@),
{
    let mut encoder = flate2::write::GzEncoder::new(Vec::new(), flate2::Compression::default());
    match encoder.write_all(data) {
        Ok(()) => encoder.finish().ok(),
        Err(_) => None,
    }
}

/// Why a body could not be built.
#[derive(Debug, PartialEq, Eq)]
pub enum BodyError {
    /// A file name would break the `Content-Disposition` header.
    InvalidFileName(String),
}

/// A body to send, and whether it was compressed.
pub struct Body {
    pub bytes: Vec<u8>,
    pub gzipped: bool,
}

/// The bytes `Body::new` sends for `data`, and whether they are compressed.
pub open spec fn body_spec(data: Seq<u8>) -> (Seq<u8>, bool) {
    if data.len() < MIN_COMPRESS_BYTES {
        (data, false)
    } else if gzip_bytes(data).len() >= data.len() {
        (data, false)
    } else {
        (gzip_bytes(data), true)
    }
}

impl Body {
    /// Compresses `bytes` when they are at least [`MIN_COMPRESS_BYTES`] long
    /// and compression makes them shorter; otherwise keeps them as they are.
    /// It always succeeds.
    pub fn new(bytes: Vec<u8>) -> (r: Result<Body, BodyError>)
        ensures
            r matches Ok(b) && b.bytes@ == body_spec(bytes@).0 && b.gzipped == body_spec(bytes@).1,
    {
        if bytes.len() < MIN_COMPRESS_BYTES {
            return Ok(Body { bytes, gzipped: false });
        }
        let compressed = gzip(bytes.as_slice()).unwrap();
        if compressed.len() >= bytes.len() {
            Ok(Body { bytes, gzipped: false })
        } else {
            Ok(Body { bytes: compressed, gzipped: true })
        }
    }
}

/// One part of a `multipart/form-data` body.
pub enum Part {
    /// A plain value.
    Text { name: String, value: String },
    /// A file; the server stores it under `filename`.
    File { name: String, filename: String, content: Vec<u8> },
}

/// The UTF-8 bytes of a character sequence.
pub open spec fn utf8(s: Seq<char>) -> Seq<u8> {
    encode_utf8(s)
}

pub proof fn lemma_utf8_concat(a: Seq<char>, b: Seq<char>)
    ensures
        utf8(a + b) == utf8(a) + utf8(b),
    decreases a.len(),
{
    if a.len() > 0 {
        assert((a + b).drop_first() == a.drop_first() + b);
        lemma_utf8_concat(a.drop_first(), b);
    } else {
        assert(a + b == b);
    }
}

impl Part {
    /// The bytes this part carries.
    pub open spec fn body_spec(self) -> Seq<u8> {
        match self {
            Part::Text { value, .. } => utf8(value@),
            Part::File { content, .. } => content@,
        }
    }

    pub fn text(name: &str, value: &str) -> (p: Part)
        ensures
            p matches Part::Text { name: n, value: v } && n@ == name@ && v@ == value@,
    {
        Part::Text { name: name.to_string(), value: value.to_string() }
    }

    pub fn file(name: &str, filename: &str, content: Vec<u8>) -> (p: Part)
        ensures
            p matches Part::File { name: n, filename: f, content: c } && n@ == name@ && f@
                == filename@ && c@ == content@,
    {
        Part::File { name: name.to_string(), filename: filename.to_string(), content }
    }

    pub fn body(&self) -> (b: &[u8])
        ensures
            b@ == self.body_spec(),
    {
        match self {
            Part::Text { value, .. } => value.as_str().as_bytes(),
            Part::File { content, .. } => content.as_slice(),
        }
    }
}

/// A character that may stand in a quoted file name: printable ASCII other
/// than `"` and `\`.
pub open spec fn is_header_safe(c: char) -> bool {
    '!' <= c && c <= '~' && c != '"' && c != '\\'
}

/// A file name that can be put in a `Content-Disposition` header as it is.
pub open spec fn valid_file_name(f: Seq<char>) -> bool {
    f.len() > 0 && forall|i: int| 0 <= i < f.len() ==> is_header_safe(#[trigger] f[i])
}

fn file_name_ok(f: &String) -> (b: bool)
    ensures
        b == valid_file_name(f@),
{
    let cs = chars_of(f.as_str());
    if cs.len() == 0 {
        return false;
    }
    let mut i: usize = 0;
    while i < cs.len()
        invariant
            i <= cs.len(),
            cs@ == f@,
            forall|k: int| 0 <= k < i ==> is_header_safe(#[trigger] cs@[k]),
        decreases cs.len() - i,
    {
        let c = cs[i];
        if !('!' <= c && c <= '~' && c != '"' && c != '\\') {
            return false;
        }
        i = i + 1;
    }
    true
}

// ---------------------------------------------------------------------------
// Byte sequences

/// `needle` occurs in `haystack` as a contiguous run.
pub open spec fn occurs_in(haystack: Seq<u8>, needle: Seq<u8>) -> bool {
    exists|i: int|
        0 <= i && i + needle.len() <= haystack.len() && #[trigger] haystack.subrange(
            i,
            i + needle.len(),
        ) == needle
}

fn matches_at(haystack: &[u8], needle: &[u8], i: usize) -> (b: bool)
    requires
        i + needle@.len() <= haystack@.len(),
    ensures
        b == (haystack@.subrange(i as int, i + needle@.len()) == needle@),
{
    let hl = haystack.len();
    let mut k: usize = 0;
    while k < needle.len()
        invariant
            hl == haystack@.len(),
            k <= needle@.len(),
            i + needle@.len() <= haystack@.len(),
            forall|j: int| 0 <= j < k ==> haystack@[i + j] == needle@[j],
        decreases needle@.len() - k,
    {
        if haystack[i + k] != needle[k] {
            assert(haystack@.subrange(i as int, i + needle@.len())[k as int] != needle@[k as int]);
            return false;
        }
        k = k + 1;
    }
    assert(haystack@.subrange(i as int, i + needle@.len()) =~= needle@);
    true
}

/// Whether `needle` occurs in `haystack` (`haystack.windows(n).any(..)`,
/// which panics for an empty `needle`).
pub fn contains(haystack: &[u8], needle: &[u8]) -> (b: bool)
    requires
        needle@.len() > 0,
    ensures
        b == occurs_in(haystack@, needle@),
{
    if needle.len() > haystack.len() {
        return false;
    }
    let last = haystack.len() - needle.len();
    let mut i: usize = 0;
    while i <= last
        invariant
            last == haystack@.len() - needle@.len(),
            needle@.len() > 0,
            haystack@.len() <= usize::MAX,
            i <= last + 1,
            forall|j: int|
                0 <= j < i ==> #[trigger] haystack@.subrange(j, j + needle@.len()) != needle@,
        decreases last + 1 - i,
    {
        if matches_at(haystack, needle, i) {
            return true;
        }
        i = i + 1;
    }
    false
}

fn append_bytes(acc: &mut Vec<u8>, bytes: &[u8])
    ensures
        final(acc)@ == old(acc)@ + bytes@,
{
    let ghost start = acc@;
    let mut i: usize = 0;
    while i < bytes.len()
        invariant
            i <= bytes@.len(),
            acc@ == start + bytes@.subrange(0, i as int),
        decreases bytes@.len() - i,
    {
        acc.push(bytes[i]);
        i = i + 1;
        assert(bytes@.subrange(0, i as int) == bytes@.subrange(0, i - 1).push(bytes@[i - 1]));
    }
    assert(bytes@.subrange(0, bytes@.len() as int) == bytes@);
}

// ---------------------------------------------------------------------------
// Boundary

/// The lower-case hexadecimal digit for `d < 16`.
pub open spec fn hex_digit(d: nat) -> char {
    if d < 10 {
        crate::text::digit(d)
    } else if d == 10 {
        'a'
    } else if d == 11 {
        'b'
    } else if d == 12 {
        'c'
    } else if d == 13 {
        'd'
    } else if d == 14 {
        'e'
    } else {
        'f'
    }
}

/// The last `k` hexadecimal digits of `n`, zero-padded (`{:0k$x}` for `n < 16^k`).
pub open spec fn hex_pad(n: nat, k: nat) -> Seq<char>
    decreases k,
{
    if k == 0 {
        seq![]
    } else {
        hex_pad(n / 16, (k - 1) as nat).push(hex_digit(n % 16))
    }
}

fn hex_digit_char(d: u128) -> (c: char)
    requires
        d < 16,
    ensures
        c == hex_digit(d as nat),
{
    if d == 0 {
        '0'
    } else if d == 1 {
        '1'
    } else if d == 2 {
        '2'
    } else if d == 3 {
        '3'
    } else if d == 4 {
        '4'
    } else if d == 5 {
        '5'
    } else if d == 6 {
        '6'
    } else if d == 7 {
        '7'
    } else if d == 8 {
        '8'
    } else if d == 9 {
        '9'
    } else if d == 10 {
        'a'
    } else if d == 11 {
        'b'
    } else if d == 12 {
        'c'
    } else if d == 13 {
        'd'
    } else if d == 14 {
        'e'
    } else {
        'f'
    }
}

fn hex_padded(n: u128, k: u32) -> (r: Vec<char>)
    ensures
        r@ == hex_pad(n as nat, k as nat),
    decreases k,
{
    if k == 0 {
        Vec::new()
    } else {
        let mut v = hex_padded(n / 16, k - 1);
        v.push(hex_digit_char(n % 16));
        v
    }
}

/// `seed.wrapping_add(k)`.
pub open spec fn wrap_add(seed: u128, k: u128) -> u128 {
    if seed + k <= u128::MAX {
        (seed + k) as u128
    } else {
        (seed + k - u128::MAX - 1) as u128
    }
}

fn wrapping_add(seed: u128, k: u128) -> (r: u128)
    ensures
        r == wrap_add(seed, k),
{
    if k <= u128::MAX - seed {
        seed + k
    } else {
        k - (u128::MAX - seed) - 1
    }
}

/// Number of boundary candidates tried before falling back.
pub const BOUNDARY_ATTEMPTS: u128 = 64;

/// The boundary candidate number `k` for `seed`.
pub open spec fn candidate(seed: u128, k: u128) -> Seq<char> {
    "yukicodertools"@ + hex_pad(wrap_add(seed, k) as nat, 32)
}

/// `n` letters `z`.
pub open spec fn z_run(n: nat) -> Seq<char> {
    Seq::new(n, |i: int| 'z')
}

/// The fallback boundary with `n` trailing `z`s.
pub open spec fn fallback_boundary(seed: u128, n: nat) -> Seq<char> {
    "yukicodertools"@ + hex_pad(seed as nat, 32) + z_run(n)
}

/// The length of the longest part body.
pub open spec fn longest_body(parts: Seq<Part>) -> nat
    decreases parts.len(),
{
    if parts.len() == 0 {
        0
    } else {
        let rest = longest_body(parts.drop_last());
        let last = parts.last().body_spec().len();
        if rest < last {
            last
        } else {
            rest
        }
    }
}

/// Some part of `parts` carries the bytes of `b`.
pub open spec fn used_in(parts: Seq<Part>, b: Seq<char>) -> bool {
    exists|i: int| 0 <= i < parts.len() && occurs_in(#[trigger] parts[i].body_spec(), utf8(b))
}

/// The first fallback boundary with at least `n` trailing `z`s that no part
/// carries. One longer than every part body is never carried, so the search
/// stops there.
pub open spec fn fallback_from(parts: Seq<Part>, seed: u128, n: nat) -> Seq<char>
    decreases longest_body(parts) + 1 - n,
{
    if n > longest_body(parts) || !used_in(parts, fallback_boundary(seed, n)) {
        fallback_boundary(seed, n)
    } else {
        fallback_from(parts, seed, n + 1)
    }
}

/// The first candidate from number `k` on that no part carries; when every
/// candidate is carried, the first free fallback from `zzzz` on.
pub open spec fn pick_from(parts: Seq<Part>, seed: u128, k: u128) -> Seq<char>
    decreases BOUNDARY_ATTEMPTS - k,
{
    if k >= BOUNDARY_ATTEMPTS {
        fallback_from(parts, seed, 4)
    } else if !used_in(parts, candidate(seed, k)) {
        candidate(seed, k)
    } else {
        pick_from(parts, seed, (k + 1) as u128)
    }
}

/// The boundary chosen for `parts` from the clock reading `seed`.
pub open spec fn pick_spec(parts: Seq<Part>, seed: u128) -> Seq<char> {
    pick_from(parts, seed, 0)
}

/// Nanoseconds since the Unix epoch, or 0 if the clock is before it.
///
/// Trusted: nothing is said of the value, which comes from the clock.
#[verifier::external_body]
fn clock_seed() -> u128 {
    std::time::SystemTime::now().duration_since(std::time::UNIX_EPOCH).map(|d| d.as_nanos()).unwrap_or(0)
}

fn used_by(parts: &Vec<Part>, b: &String) -> (r: bool)
    requires
        b@.len() > 0,
    ensures
        r == used_in(parts@, b@),
{
    let bytes = b.as_str().as_bytes();
    proof {
        lemma_utf8_nonempty(b@);
    }
    let mut i: usize = 0;
    while i < parts.len()
        invariant
            i <= parts@.len(),
            bytes@ == utf8(b@),
            bytes@.len() > 0,
            forall|j: int| 0 <= j < i ==> !occurs_in(#[trigger] parts@[j].body_spec(), utf8(b@)),
        decreases parts@.len() - i,
    {
        if contains(parts[i].body(), bytes) {
            return true;
        }
        i = i + 1;
    }
    false
}

proof fn lemma_utf8_nonempty(s: Seq<char>)
    requires
        s.len() > 0,
    ensures
        utf8(s).len() > 0,
{
    vstd::utf8::encode_utf8_first_scalar(s);
    reveal_with_fuel(encode_utf8, 1);
    assert(utf8(s) == vstd::utf8::encode_scalar(s[0] as u32) + utf8(s.drop_first()));
    let c = s[0] as u32;
    assert(vstd::utf8::encode_scalar(c).len() > 0);
}

fn candidate_string(seed: u128, k: u128) -> (r: String)
    ensures
        r@ == candidate(seed, k),
{
    let mut acc: Vec<char> = Vec::new();
    push_str(&mut acc, "yukicodertools");
    let mut hex = hex_padded(wrapping_add(seed, k), 32);
    acc.append(&mut hex);
    string_of(&acc)
}

/// Chooses a boundary string that occurs in no part: the first of
/// [`BOUNDARY_ATTEMPTS`] candidates derived from `seed` that no part carries,
/// or else the fallback with as many trailing `z`s as it takes.
pub fn pick_boundary(parts: &Vec<Part>, seed: u128) -> (r: String)
    ensures
        r@ == pick_spec(parts@, seed),
        !used_in(parts@, r@),
{
    proof {
        lemma_boundary_absent(parts@, seed);
    }
    let mut k: u128 = 0;
    while k < BOUNDARY_ATTEMPTS
        invariant
            k <= BOUNDARY_ATTEMPTS,
            pick_from(parts@, seed, k) == pick_spec(parts@, seed),
        decreases BOUNDARY_ATTEMPTS - k,
    {
        let c = candidate_string(seed, k);
        proof {
            reveal_strlit("yukicodertools");
        }
        if !used_by(parts, &c) {
            return c;
        }
        k = k + 1;
    }
    let mut acc: Vec<char> = Vec::new();
    push_str(&mut acc, "yukicodertools");
    let mut hex = hex_padded(seed, 32);
    acc.append(&mut hex);
    push_str(&mut acc, "zzzz");
    let ghost mut n: nat = 4;
    proof {
        reveal_strlit("zzzz");
        assert("zzzz"@ == z_run(4));
    }
    loop
        invariant
            4 <= n <= longest_body(parts@) + 4,
            acc@ == fallback_boundary(seed, n),
            fallback_from(parts@, seed, n) == pick_spec(parts@, seed),
        decreases longest_body(parts@) + 4 - n,
    {
        let b = string_of(&acc);
        if !used_by(parts, &b) {
            return b;
        }
        proof {
            if n > longest_body(parts@) {
                lemma_long_boundary_unused(parts@, b@);
            }
        }
        acc.push('z');
        proof {
            n = n + 1;
            assert(z_run(n) == z_run((n - 1) as nat).push('z'));
        }
    }
}

/// A character sequence has at least as many UTF-8 bytes as characters.
proof fn lemma_utf8_len(s: Seq<char>)
    ensures
        utf8(s).len() >= s.len(),
    decreases s.len(),
{
    if s.len() > 0 {
        lemma_utf8_len(s.drop_first());
        reveal_with_fuel(encode_utf8, 1);
        assert(utf8(s) == vstd::utf8::encode_scalar(s[0] as u32) + utf8(s.drop_first()));
    }
}

proof fn lemma_longest_body(parts: Seq<Part>, i: int)
    requires
        0 <= i < parts.len(),
    ensures
        parts[i].body_spec().len() <= longest_body(parts),
    decreases parts.len(),
{
    if i < parts.len() - 1 {
        lemma_longest_body(parts.drop_last(), i);
        assert(parts.drop_last()[i] == parts[i]);
    }
}

/// A boundary with more characters than the longest part body occurs in no part.
proof fn lemma_long_boundary_unused(parts: Seq<Part>, b: Seq<char>)
    requires
        b.len() > longest_body(parts),
    ensures
        !used_in(parts, b),
{
    lemma_utf8_len(b);
    if used_in(parts, b) {
        let i = choose|i: int|
            0 <= i < parts.len() && occurs_in(#[trigger] parts[i].body_spec(), utf8(b));
        lemma_longest_body(parts, i);
    }
}

proof fn lemma_fallback_from(parts: Seq<Part>, seed: u128, n: nat)
    ensures
        !used_in(parts, fallback_from(parts, seed, n)),
    decreases longest_body(parts) + 1 - n,
{
    if n > longest_body(parts) {
        lemma_long_boundary_unused(parts, fallback_boundary(seed, n));
    } else if used_in(parts, fallback_boundary(seed, n)) {
        lemma_fallback_from(parts, seed, n + 1);
    }
}

proof fn lemma_pick_from(parts: Seq<Part>, seed: u128, k: u128)
    requires
        k <= BOUNDARY_ATTEMPTS,
    ensures
        !used_in(parts, pick_from(parts, seed, k)),
    decreases BOUNDARY_ATTEMPTS - k,
{
    if k >= BOUNDARY_ATTEMPTS {
        lemma_fallback_from(parts, seed, 4);
    } else if used_in(parts, candidate(seed, k)) {
        lemma_pick_from(parts, seed, (k + 1) as u128);
    }
}

/// Whatever the clock reads, the chosen boundary occurs in no part.
pub proof fn lemma_boundary_absent(parts: Seq<Part>, seed: u128)
    ensures
        !used_in(parts, pick_spec(parts, seed)),
{
    lemma_pick_from(parts, seed, 0);
}

// ---------------------------------------------------------------------------
// Multipart body

/// The header lines of a part, up to and including the empty line.
pub open spec fn part_head(p: Part, boundary: Seq<char>) -> Seq<char> {
    "--"@ + boundary + "\r\n"@ + match p {
        Part::Text { name, .. } => "Content-Disposition: form-data; name=\""@ + name@
            + "\"\r\n\r\n"@,
        Part::File { name, filename, .. } => "Content-Disposition: form-data; name=\""@ + name@
            + "\"; filename=\""@ + filename@ + "\"\r\n"@ + "Content-Type: text/plain\r\n\r\n"@,
    }
}

/// The bytes of one part: its head, its body and a line break.
pub open spec fn part_bytes(p: Part, boundary: Seq<char>) -> Seq<u8> {
    utf8(part_head(p, boundary)) + p.body_spec() + utf8("\r\n"@)
}

/// The bytes of the parts, one after the other.
pub open spec fn parts_bytes(parts: Seq<Part>, boundary: Seq<char>) -> Seq<u8>
    decreases parts.len(),
{
    if parts.len() == 0 {
        seq![]
    } else {
        parts_bytes(parts.drop_last(), boundary) + part_bytes(parts.last(), boundary)
    }
}

/// The whole `multipart/form-data` body for `parts` with `boundary`.
pub open spec fn multipart_bytes(parts: Seq<Part>, boundary: Seq<char>) -> Seq<u8> {
    parts_bytes(parts, boundary) + utf8("--"@ + boundary + "--\r\n"@)
}

/// The section of every part, in order.
pub open spec fn sections(parts: Seq<Part>, boundary: Seq<char>) -> Seq<Seq<u8>> {
    Seq::new(parts.len(), |i: int| part_bytes(parts[i], boundary))
}

proof fn lemma_parts_bytes_flatten_alt(parts: Seq<Part>, boundary: Seq<char>)
    ensures
        parts_bytes(parts, boundary) == sections(parts, boundary).flatten_alt(),
    decreases parts.len(),
{
    if parts.len() > 0 {
        lemma_parts_bytes_flatten_alt(parts.drop_last(), boundary);
        assert(sections(parts, boundary).drop_last() == sections(parts.drop_last(), boundary));
        assert(sections(parts, boundary).last() == part_bytes(parts.last(), boundary));
    }
}

/// The body holds one section per part, in the order of the parts, and then
/// the closing line: it is the sections of all the parts, flattened, followed
/// by `--boundary--\r\n`.
pub proof fn lemma_multipart_one_section_per_part(parts: Seq<Part>, boundary: Seq<char>)
    ensures
        sections(parts, boundary).len() == parts.len(),
        multipart_bytes(parts, boundary) == sections(parts, boundary).flatten() + utf8(
            "--"@ + boundary + "--\r\n"@,
        ),
{
    lemma_parts_bytes_flatten_alt(parts, boundary);
    sections(parts, boundary).lemma_flatten_and_flatten_alt_are_equivalent();
}

/// Each part's section opens with the boundary line `--boundary\r\n` and
/// closes with the part's own bytes, unchanged, and a line break.
pub proof fn lemma_section_shape(p: Part, boundary: Seq<char>)
    ensures
        ({
            let sec = part_bytes(p, boundary);
            let open = utf8("--"@ + boundary + "\r\n"@);
            let close = p.body_spec() + utf8("\r\n"@);
            &&& sec.len() >= open.len() + close.len()
            &&& sec.subrange(0, open.len() as int) == open
            &&& sec.subrange(sec.len() - close.len(), sec.len() as int) == close
        }),
{
    let head = part_head(p, boundary);
    let first = "--"@ + boundary + "\r\n"@;
    let rest = head.subrange(first.len() as int, head.len() as int);
    assert(head == first + rest);
    lemma_utf8_concat(first, rest);
    let sec = part_bytes(p, boundary);
    let open = utf8(first);
    let close = p.body_spec() + utf8("\r\n"@);
    assert(sec == open + (utf8(rest) + close));
    assert(sec.subrange(0, open.len() as int) == open);
    assert(sec.subrange(sec.len() - close.len(), sec.len() as int) == close);
}

/// Building the parts of two lists one after the other gives the sections of
/// the first list followed by those of the second, and one part gives its
/// own section: no part is dropped or reordered, however many there are.
pub proof fn lemma_parts_bytes_concat(a: Seq<Part>, c: Seq<Part>, p: Part, boundary: Seq<char>)
    ensures
        parts_bytes(a + c, boundary) == parts_bytes(a, boundary) + parts_bytes(c, boundary),
        parts_bytes(seq![p], boundary) == part_bytes(p, boundary),
    decreases c.len(),
{
    assert(seq![p].drop_last() == Seq::<Part>::empty());
    assert(parts_bytes(seq![p], boundary) == parts_bytes(Seq::<Part>::empty(), boundary) + part_bytes(
        p,
        boundary,
    ));
    assert(Seq::<u8>::empty() + part_bytes(p, boundary) == part_bytes(p, boundary));
    if c.len() == 0 {
        assert(a + c == a);
    } else {
        lemma_parts_bytes_concat(a, c.drop_last(), p, boundary);
        assert((a + c).drop_last() == a + c.drop_last());
        assert((a + c).last() == c.last());
    }
}

fn part_head_string(p: &Part, boundary: &String) -> (r: String)
    ensures
        r@ == part_head(*p, boundary@),
{
    let mut acc: Vec<char> = Vec::new();
    push_str(&mut acc, "--");
    push_str(&mut acc, boundary.as_str());
    push_str(&mut acc, "\r\n");
    match p {
        Part::Text { name, .. } => {
            push_str(&mut acc, "Content-Disposition: form-data; name=\"");
            push_str(&mut acc, name.as_str());
            push_str(&mut acc, "\"\r\n\r\n");
        },
        Part::File { name, filename, .. } => {
            push_str(&mut acc, "Content-Disposition: form-data; name=\"");
            push_str(&mut acc, name.as_str());
            push_str(&mut acc, "\"; filename=\"");
            push_str(&mut acc, filename.as_str());
            push_str(&mut acc, "\"\r\n");
            push_str(&mut acc, "Content-Type: text/plain\r\n\r\n");
        },
    }
    string_of(&acc)
}

/// Builds the body for `parts` with `boundary`.
pub fn multipart_with_boundary(parts: &Vec<Part>, boundary: &String) -> (r: Vec<u8>)
    ensures
        r@ == multipart_bytes(parts@, boundary@),
{
    let mut body: Vec<u8> = Vec::new();
    let mut i: usize = 0;
    while i < parts.len()
        invariant
            i <= parts@.len(),
            body@ == parts_bytes(parts@.subrange(0, i as int), boundary@),
        decreases parts@.len() - i,
    {
        let head = part_head_string(&parts[i], boundary);
        append_bytes(&mut body, head.as_str().as_bytes());
        append_bytes(&mut body, parts[i].body());
        append_bytes(&mut body, "\r\n".as_bytes());
        assert(parts@.subrange(0, i + 1).drop_last() == parts@.subrange(0, i as int));
        i = i + 1;
    }
    assert(parts@.subrange(0, parts@.len() as int) == parts@);
    let mut tail: Vec<char> = Vec::new();
    push_str(&mut tail, "--");
    push_str(&mut tail, boundary.as_str());
    push_str(&mut tail, "--\r\n");
    let tail = string_of(&tail);
    append_bytes(&mut body, tail.as_str().as_bytes());
    body
}

/// The first file part whose name is not valid, if any.
pub open spec fn first_invalid_name(parts: Seq<Part>) -> Option<Seq<char>>
    decreases parts.len(),
{
    if parts.len() == 0 {
        None
    } else if parts[0] matches Part::File { filename, .. } && !valid_file_name(filename@) {
        Some(parts[0]->filename@)
    } else {
        first_invalid_name(parts.drop_first())
    }
}

proof fn lemma_first_invalid_name(parts: Seq<Part>, i: int)
    requires
        0 <= i <= parts.len(),
        forall|j: int|
            0 <= j < i ==> (#[trigger] parts[j] matches Part::File { filename, .. }
                ==> valid_file_name(filename@)),
    ensures
        first_invalid_name(parts) == first_invalid_name(parts.subrange(i, parts.len() as int)),
    decreases i,
{
    if i > 0 {
        let t = parts.drop_first();
        assert forall|j: int| 0 <= j < i - 1 implies (#[trigger] t[j] matches Part::File {
            filename,
            ..
        } ==> valid_file_name(filename@)) by {
            assert(t[j] == parts[j + 1]);
        }
        lemma_first_invalid_name(t, i - 1);
        assert(t.subrange(i - 1, t.len() as int) == parts.subrange(i, parts.len() as int));
    } else {
        assert(parts.subrange(0, parts.len() as int) == parts);
    }
}

/// Builds a `multipart/form-data` body and returns it with its boundary.
///
/// File names are put in the header in quotes, so a name that would break
/// the header (quotes, backslashes, control characters, non-ASCII, empty) is
/// refused. The boundary is derived from the clock and occurs in no part.
pub fn multipart(parts: &Vec<Part>) -> (r: Result<(String, Vec<u8>), BodyError>)
    ensures
        match r {
            Ok((b, body)) => {
                &&& first_invalid_name(parts@) is None
                &&& exists|seed: u128| b@ == #[trigger] pick_spec(parts@, seed)
                &&& !used_in(parts@, b@)
                &&& body@ == multipart_bytes(parts@, b@)
            },
            Err(e) => first_invalid_name(parts@) matches Some(f) && e matches BodyError::InvalidFileName(
                n,
            ) && n@ == f,
        },
{
    let mut i: usize = 0;
    while i < parts.len()
        invariant
            i <= parts@.len(),
            forall|j: int|
                0 <= j < i ==> (#[trigger] parts@[j] matches Part::File { filename, .. }
                    ==> valid_file_name(filename@)),
        decreases parts@.len() - i,
    {
        if let Part::File { filename, .. } = &parts[i] {
            if !file_name_ok(filename) {
                proof {
                    lemma_first_invalid_name(parts@, i as int);
                    let rest = parts@.subrange(i as int, parts@.len() as int);
                    assert(rest[0] == parts@[i as int]);
                }
                return Err(BodyError::InvalidFileName(filename.clone()));
            }
        }
        i = i + 1;
    }
    proof {
        lemma_first_invalid_name(parts@, parts@.len() as int);
    }
    let seed = clock_seed();
    let boundary = pick_boundary(parts, seed);
    let body = multipart_with_boundary(parts, &boundary);
    Ok((boundary, body))
}

} // verus!
