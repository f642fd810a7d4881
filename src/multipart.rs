//! multipart/form-data framing of a single file part.
use vstd::prelude::*;
use vstd::utf8::*;

verus! {

/// `s` with every double quote preceded by a backslash.
pub open spec fn escaped(s: Seq<char>) -> Seq<char>
    decreases s.len(),
{
    if s.len() == 0 {
        Seq::empty()
    } else if s.last() == '"' {
        escaped(s.drop_last()) + seq!['\\', '"']
    } else {
        escaped(s.drop_last()).push(s.last())
    }
}

/// Escapes the double quotes of `s`, so that it can stand between quotes in a
/// header parameter.
pub fn escape_quotes(s: &str) -> (r: String)
    ensures
        r@ == escaped(s@),
{
    let n = s.unicode_len();
    let mut out = String::new();
    let mut start: usize = 0;
    let mut i: usize = 0;
    while i < n
        invariant
            n == s@.len(),
            start <= i <= n,
            out@ + s@.subrange(start as int, i as int) == escaped(s@.subrange(0, i as int)),
        decreases n - i,
    {
        let c = s.get_char(i);
        assert(s@.subrange(0, i + 1).drop_last() == s@.subrange(0, i as int));
        if c == '"' {
            out.append(s.substring_char(start, i));
            proof {
                reveal_strlit("\\\"");
            }
            out.append("\\\"");
            start = i + 1;
            assert(s@.subrange(start as int, start as int) =~= Seq::<char>::empty());
        } else {
            assert(s@.subrange(start as int, i + 1) == s@.subrange(start as int, i as int).push(c));
        }
        i = i + 1;
    }
    out.append(s.substring_char(start, n));
    assert(s@.subrange(0, n as int) == s@);
    out
}

/// A lowercase hexadecimal digit.
pub open spec fn is_lower_hex(c: char) -> bool {
    ('0' <= c <= '9') || ('a' <= c <= 'f')
}

/// Number of hexadecimal digits in a boundary token.
pub const TOKEN_DIGITS: usize = 32;

/// The boundary tokens this library makes: four dashes, then 32 lowercase
/// hexadecimal digits.
pub open spec fn is_boundary_token(b: Seq<char>) -> bool {
    &&& b.len() == 36
    &&& forall|i: int| 0 <= i < 4 ==> b[i] == '-'
    &&& forall|i: int| 4 <= i < 36 ==> is_lower_hex(#[trigger] b[i])
}

/// Relies on uuid's `Uuid::new_v4` for a random version-4 UUID and on its
/// `Simple` formatter, which writes the 16 bytes as 32 lowercase hexadecimal
/// digits.
#[verifier::external_body]
fn random_hex_token() -> (r: String)
    ensures
        r@.len() == TOKEN_DIGITS,
        forall|i: int| 0 <= i < r@.len() ==> is_lower_hex(#[trigger] r@[i]),
{
    uuid::Uuid::new_v4().as_simple().to_string()
}

/// The boundary token made of `digits`: four dashes followed by them.
pub fn boundary_from_digits(digits: &str) -> (r: String)
    requires
        digits@.len() == TOKEN_DIGITS,
        forall|i: int| 0 <= i < digits@.len() ==> is_lower_hex(#[trigger] digits@[i]),
    ensures
        r@ == "----"@ + digits@,
        is_boundary_token(r@),
{
    proof {
        reveal_strlit("----");
    }
    let mut r = String::from_str("----");
    r.append(digits);
    r
}

/// A fresh boundary token: four dashes followed by the digits of a random UUID.
pub fn new_boundary() -> (r: String)
    ensures
        is_boundary_token(r@),
{
    let digits = random_hex_token();
    boundary_from_digits(digits.as_str())
}

/// The value of the request's `Content-Type` header for a body framed with
/// `boundary`.
pub open spec fn content_type_value(boundary: Seq<char>) -> Seq<char> {
    "multipart/form-data; boundary="@ + boundary
}

/// Builds the `Content-Type` header value that announces `boundary`.
pub fn content_type_header(boundary: &str) -> (r: String)
    ensures
        r@ == content_type_value(boundary@),
{
    let mut r = String::from_str("multipart/form-data; boundary=");
    r.append(boundary);
    r
}

/// The bytes of a string, as UTF-8.
pub open spec fn text(s: Seq<char>) -> Seq<u8> {
    encode_utf8(s)
}

/// What precedes the file's bytes: the opening delimiter line, the part's
/// `Content-Disposition` and `Content-Type` headers, and the blank line that
/// ends them.
pub open spec fn part_head(boundary: Seq<char>, file_name: Seq<char>, content_type: Seq<char>) -> Seq<u8> {
    text("--"@) + text(boundary) + text("\r\n"@)
        + text("Content-Disposition: form-data; name=\"image_file\"; filename=\""@)
        + text(escaped(file_name)) + text("\"\r\n"@)
        + text("Content-Type: "@) + text(content_type) + text("\r\n"@)
        + text("\r\n"@)
}

/// What follows the file's bytes: the line break that ends the part and the
/// closing delimiter line.
pub open spec fn body_tail(boundary: Seq<char>) -> Seq<u8> {
    text("\r\n"@) + text("--"@) + text(boundary) + text("--\r\n"@)
}

/// The whole multipart/form-data body: one part named `image_file` that
/// carries `data`.
pub open spec fn framed(boundary: Seq<char>, file_name: Seq<char>, content_type: Seq<char>, data: Seq<u8>) -> Seq<u8> {
    part_head(boundary, file_name, content_type) + data + body_tail(boundary)
}

fn push_text(out: &mut Vec<u8>, s: &str)
    ensures
        final(out)@ == old(out)@ + text(s@),
{
    out.extend_from_slice(s.as_bytes());
    assert(final(out)@ =~= old(out)@ + text(s@));
}

/// Frames `data` as the single file part `image_file` of a multipart/form-data
/// body delimited by `boundary`.
pub fn build_body(boundary: &str, file_name: &str, content_type: &str, data: &[u8]) -> (body: Vec<u8>)
    ensures
        body@ == framed(boundary@, file_name@, content_type@, data@),
{
    let name = escape_quotes(file_name);
    let mut body: Vec<u8> = Vec::new();
    push_text(&mut body, "--");
    push_text(&mut body, boundary);
    push_text(&mut body, "\r\n");
    push_text(&mut body, "Content-Disposition: form-data; name=\"image_file\"; filename=\"");
    push_text(&mut body, name.as_str());
    push_text(&mut body, "\"\r\n");
    push_text(&mut body, "Content-Type: ");
    push_text(&mut body, content_type);
    push_text(&mut body, "\r\n");
    push_text(&mut body, "\r\n");
    let ghost head = body@;
    body.extend_from_slice(data);
    assert(body@ =~= head + data@);
    push_text(&mut body, "\r\n");
    push_text(&mut body, "--");
    push_text(&mut body, boundary);
    push_text(&mut body, "--\r\n");
    assert(body@ =~= framed(boundary@, file_name@, content_type@, data@));
    body
}

/// `d` occurs in `s` starting at position `i`.
pub open spec fn occurs_at(s: Seq<u8>, d: Seq<u8>, i: int) -> bool {
    &&& 0 <= i
    &&& i + d.len() <= s.len()
    &&& s.subrange(i, i + d.len()) == d
}

/// `d` occurs somewhere in `s`.
pub open spec fn occurs_in(s: Seq<u8>, d: Seq<u8>) -> bool {
    exists|i: int| occurs_at(s, d, i)
}

/// The delimiter that opens the part and, followed by `--`, closes the body.
pub open spec fn delimiter(boundary: Seq<char>) -> Seq<u8> {
    text("--"@) + text(boundary)
}

proof fn ascii_text(s: Seq<char>)
    requires
        is_ascii_chars(s),
    ensures
        text(s) == Seq::new(s.len(), |i: int| s[i] as u8),
{
    is_ascii_chars_encode_utf8(s);
    assert(text(s) =~= Seq::new(s.len(), |i: int| s[i] as u8));
}

/// Where a byte that `d` lacks separates `a` from `rest`, the occurrences of
/// `d` in the joined sequence are those in `a` and those in `rest`, moved.
proof fn occurrences_across(a: Seq<u8>, c: u8, rest: Seq<u8>, d: Seq<u8>, p: int)
    requires
        forall|j: int| 0 <= j < d.len() ==> d[j] != c,
        !occurs_in(a, d),
        forall|i: int| occurs_at(rest, d, i) <==> i == p,
    ensures
        forall|i: int| occurs_at(a + seq![c] + rest, d, i) <==> i == p + a.len() + 1,
{
    let s = a + seq![c] + rest;
    assert forall|i: int| occurs_at(s, d, i) <==> i == p + a.len() + 1 by {
        let q = i - a.len() - 1;
        if occurs_at(s, d, i) {
            if i + d.len() <= a.len() {
                assert(s.subrange(i, i + d.len()) =~= a.subrange(i, i + d.len()));
                assert(occurs_at(a, d, i));
            } else if i >= a.len() + 1 {
                assert(s.subrange(i, i + d.len()) =~= rest.subrange(q, q + d.len()));
                assert(occurs_at(rest, d, q));
            } else {
                assert(s.subrange(i, i + d.len())[a.len() - i] == c);
            }
        }
        if i == p + a.len() + 1 {
            assert(occurs_at(rest, d, q));
            assert(s.subrange(i, i + d.len()) =~= rest.subrange(q, q + d.len()));
        }
    }
}

/// A sequence shorter than `d` does not hold it.
proof fn too_short(a: Seq<u8>, d: Seq<u8>)
    requires
        a.len() < d.len(),
    ensures
        !occurs_in(a, d),
{
}

proof fn literal_bytes()
    ensures
        text("--"@) == seq![45u8, 45u8],
        text("\r\n"@) == seq![13u8, 10u8],
        text("\"\r\n"@) == seq![34u8, 13u8, 10u8],
        text("--\r\n"@) == seq![45u8, 45u8, 13u8, 10u8],
        text("Content-Disposition: form-data; name=\"image_file\"; filename=\""@) == text(
            "Content-Disposition: form-data; name="@,
        ) + seq![34u8] + text("image_file"@) + seq![34u8] + text("; filename="@) + seq![34u8],
        text("Content-Type: "@) == text("Content-Type:"@) + seq![32u8],
        text("Content-Disposition: form-data; name="@).len() == 37,
        text("image_file"@).len() == 10,
        text("; filename="@).len() == 11,
        text("Content-Type:"@).len() == 13,
{
    reveal_strlit("--");
    reveal_strlit("\r\n");
    reveal_strlit("\"\r\n");
    reveal_strlit("--\r\n");
    reveal_strlit("Content-Type: ");
    reveal_strlit("Content-Type:");
    reveal_strlit("Content-Disposition: form-data; name=\"image_file\"; filename=\"");
    reveal_strlit("Content-Disposition: form-data; name=");
    reveal_strlit("image_file");
    reveal_strlit("; filename=");
    ascii_text("--"@);
    ascii_text("\r\n"@);
    ascii_text("\"\r\n"@);
    ascii_text("--\r\n"@);
    ascii_text("Content-Type: "@);
    ascii_text("Content-Type:"@);
    ascii_text("Content-Disposition: form-data; name=\"image_file\"; filename=\""@);
    ascii_text("Content-Disposition: form-data; name="@);
    ascii_text("image_file"@);
    ascii_text("; filename="@);
    assert(text("Content-Disposition: form-data; name=\"image_file\"; filename=\""@) =~= text(
        "Content-Disposition: form-data; name="@,
    ) + seq![34u8] + text("image_file"@) + seq![34u8] + text("; filename="@) + seq![34u8]);
    assert(text("Content-Type: "@) =~= text("Content-Type:"@) + seq![32u8]);
    assert(text("--"@) =~= seq![45u8, 45u8]);
    assert(text("\r\n"@) =~= seq![13u8, 10u8]);
    assert(text("\"\r\n"@) =~= seq![34u8, 13u8, 10u8]);
    assert(text("--\r\n"@) =~= seq![45u8, 45u8, 13u8, 10u8]);
}

/// The delimiter of a token holds dashes and digits only, 38 of them, and
/// ends with a digit.
proof fn delimiter_bytes(boundary: Seq<char>)
    requires
        is_boundary_token(boundary),
    ensures
        delimiter(boundary).len() == 38,
        forall|j: int|
            0 <= j < 38 ==> {
                let x = #[trigger] delimiter(boundary)[j];
                x != 10u8 && x != 13u8 && x != 32u8 && x != 34u8
            },
        delimiter(boundary)[37] != 45u8,
{
    literal_bytes();
    assert(is_ascii_chars(boundary));
    ascii_text(boundary);
    let d = delimiter(boundary);
    assert forall|j: int| 0 <= j < 38 implies {
        let x = #[trigger] d[j];
        x != 10u8 && x != 13u8 && x != 32u8 && x != 34u8
    } by {
        if j >= 2 {
            assert(d[j] == boundary[j - 2] as u8);
        }
    }
    assert(d[37] == boundary[35] as u8);
}

/// The closing line holds the delimiter at its start only.
proof fn closing_line(d: Seq<u8>)
    requires
        d.len() == 38,
        forall|j: int| 0 <= j < 38 ==> #[trigger] d[j] != 10u8 && d[j] != 13u8,
        d[37] != 45u8,
    ensures
        forall|i: int|
            occurs_at(d + seq![45u8, 45u8] + seq![13u8] + (Seq::empty() + seq![10u8] + Seq::empty()), d, i)
                <==> i == 0,
{
    let closing = d + seq![45u8, 45u8];
    let s = closing + seq![13u8] + (Seq::<u8>::empty() + seq![10u8] + Seq::<u8>::empty());
    assert forall|i: int| occurs_at(s, d, i) <==> i == 0 by {
        if occurs_at(s, d, i) && i != 0 {
            let w = s.subrange(i, i + d.len());
            if i <= 2 {
                assert(w[37] == s[i + 37]);
            } else {
                assert(w[40 - i] == s[40]);
            }
        }
        if i == 0 {
            assert(s.subrange(0, d.len() as int) =~= d);
        }
    }
}

/// The body as separated pieces: each piece is followed by a byte that the
/// delimiter lacks.
#[verifier::rlimit(80)]
proof fn framed_layout(boundary: Seq<char>, file_name: Seq<char>, content_type: Seq<char>, data: Seq<u8>)
    ensures
        ({
            let d = delimiter(boundary);
            let e = Seq::<u8>::empty();
            framed(boundary, file_name, content_type, data)
                == d + seq![13u8] + (e + seq![10u8] + (text("Content-Disposition: form-data; name="@)
                + seq![34u8] + (text("image_file"@) + seq![34u8] + (text("; filename="@) + seq![34u8] + (
            text(escaped(file_name)) + seq![34u8] + (e + seq![13u8] + (e + seq![10u8] + (text(
                "Content-Type:"@,
            ) + seq![32u8] + (text(content_type) + seq![13u8] + (e + seq![10u8] + (e + seq![13u8] + (e
                + seq![10u8] + (data + seq![13u8] + (e + seq![10u8] + (d + seq![45u8, 45u8]
                + seq![13u8] + (e + seq![10u8] + e))))))))))))))))
        }),
{
    literal_bytes();
    let d = delimiter(boundary);
    let e = Seq::<u8>::empty();
    assert(framed(boundary, file_name, content_type, data) =~= d + seq![13u8] + (e + seq![10u8] + (text(
        "Content-Disposition: form-data; name="@,
    ) + seq![34u8] + (text("image_file"@) + seq![34u8] + (text("; filename="@) + seq![34u8] + (text(
        escaped(file_name),
    ) + seq![34u8] + (e + seq![13u8] + (e + seq![10u8] + (text("Content-Type:"@) + seq![32u8] + (text(
        content_type,
    ) + seq![13u8] + (e + seq![10u8] + (e + seq![13u8] + (e + seq![10u8] + (data + seq![13u8] + (e
        + seq![10u8] + (d + seq![45u8, 45u8] + seq![13u8] + (e + seq![10u8] + e)))))))))))))))));
}

/// The body built around one file part is well framed: the delimiter occurs
/// exactly twice, once to open the part and once, followed by `--`, to close
/// the body; and the part's content, found between its headers and the closing
/// line, is the file's bytes unchanged. This holds for the boundary tokens of
/// this library as long as the delimiter does not occur in the escaped file
/// name, the content type or the file's bytes.
pub proof fn single_part_framing(boundary: Seq<char>, file_name: Seq<char>, content_type: Seq<char>, data: Seq<u8>)
    requires
        is_boundary_token(boundary),
        !occurs_in(text(escaped(file_name)), delimiter(boundary)),
        !occurs_in(text(content_type), delimiter(boundary)),
        !occurs_in(data, delimiter(boundary)),
    ensures
        ({
            let body = framed(boundary, file_name, content_type, data);
            let d = delimiter(boundary);
            let start = part_head(boundary, file_name, content_type).len() as int;
            &&& forall|i: int| occurs_at(body, d, i) <==> (i == 0 || i == body.len() - d.len() - 4)
            &&& body.subrange(0, d.len() as int) == d
            &&& body.subrange(body.len() - d.len() - 4, body.len() as int) == d + text("--\r\n"@)
            &&& body.subrange(start, start + data.len()) == data
        }),
{
    let body = framed(boundary, file_name, content_type, data);
    let d = delimiter(boundary);
    let e = Seq::<u8>::empty();
    literal_bytes();
    delimiter_bytes(boundary);
    framed_layout(boundary, file_name, content_type, data);
    let k1 = text("Content-Disposition: form-data; name="@);
    let k2 = text("image_file"@);
    let k3 = text("; filename="@);
    let k4 = text("Content-Type:"@);
    let n = text(escaped(file_name));
    let ct = text(content_type);
    too_short(e, d);
    too_short(k1, d);
    too_short(k2, d);
    too_short(k3, d);
    too_short(k4, d);
    closing_line(d);
    let s15 = d + seq![45u8, 45u8] + seq![13u8] + (e + seq![10u8] + e);
    let s14 = e + seq![10u8] + s15;
    occurrences_across(e, 10u8, s15, d, 0);
    let s13 = data + seq![13u8] + s14;
    occurrences_across(data, 13u8, s14, d, 1);
    let p13: int = data.len() as int + 2;
    let s12 = e + seq![10u8] + s13;
    occurrences_across(e, 10u8, s13, d, p13);
    let s11 = e + seq![13u8] + s12;
    occurrences_across(e, 13u8, s12, d, p13 + 1);
    let s10 = e + seq![10u8] + s11;
    occurrences_across(e, 10u8, s11, d, p13 + 2);
    let s9 = ct + seq![13u8] + s10;
    occurrences_across(ct, 13u8, s10, d, p13 + 3);
    let p9: int = p13 + 4 + ct.len();
    let s8 = k4 + seq![32u8] + s9;
    occurrences_across(k4, 32u8, s9, d, p9);
    let p8: int = p9 + k4.len() + 1;
    let s7 = e + seq![10u8] + s8;
    occurrences_across(e, 10u8, s8, d, p8);
    let s6 = e + seq![13u8] + s7;
    occurrences_across(e, 13u8, s7, d, p8 + 1);
    let s5 = n + seq![34u8] + s6;
    occurrences_across(n, 34u8, s6, d, p8 + 2);
    let p5: int = p8 + 3 + n.len();
    let s4 = k3 + seq![34u8] + s5;
    occurrences_across(k3, 34u8, s5, d, p5);
    let p4: int = p5 + k3.len() + 1;
    let s3 = k2 + seq![34u8] + s4;
    occurrences_across(k2, 34u8, s4, d, p4);
    let p3: int = p4 + k2.len() + 1;
    let s2 = k1 + seq![34u8] + s3;
    occurrences_across(k1, 34u8, s3, d, p3);
    let p2: int = p3 + k1.len() + 1;
    let s1 = e + seq![10u8] + s2;
    occurrences_across(e, 10u8, s2, d, p2);
    let p1: int = p2 + 1;
    let s0 = d + seq![13u8] + s1;
    assert(body == s0);
    assert(p1 + d.len() + 1 == body.len() - d.len() - 4);
    assert forall|i: int| occurs_at(body, d, i) <==> (i == 0 || i == p1 + d.len() + 1) by {
        let q = i - d.len() - 1;
        if occurs_at(s0, d, i) {
            if i >= d.len() + 1 {
                assert(s0.subrange(i, i + d.len()) =~= s1.subrange(q, q + d.len()));
                assert(occurs_at(s1, d, q));
            } else if i > 0 {
                assert(s0.subrange(i, i + d.len())[d.len() - i] == 13u8);
            }
        }
        if i == 0 {
            assert(s0.subrange(0, d.len() as int) =~= d);
        }
        if i == p1 + d.len() + 1 {
            assert(occurs_at(s1, d, q));
            assert(s0.subrange(i, i + d.len()) =~= s1.subrange(q, q + d.len()));
        }
    }
    assert(body.subrange(0, d.len() as int) =~= d);
    assert(body.subrange(body.len() - d.len() - 4, body.len() as int) =~= d + text("--\r\n"@));
    let start = part_head(boundary, file_name, content_type).len() as int;
    assert(body.subrange(start, start + data.len()) =~= data);
}

/// Bodies framed with two different tokens can each be split by its own
/// delimiter: each holds its delimiter exactly at its opening and closing
/// lines, and the two delimiters differ, so neither body's framing is taken
/// for the other's.
pub proof fn distinct_tokens_frame_independently(
    first: Seq<char>,
    first_name: Seq<char>,
    first_type: Seq<char>,
    first_data: Seq<u8>,
    second: Seq<char>,
    second_name: Seq<char>,
    second_type: Seq<char>,
    second_data: Seq<u8>,
)
    requires
        is_boundary_token(first),
        is_boundary_token(second),
        first != second,
        !occurs_in(text(escaped(first_name)), delimiter(first)),
        !occurs_in(text(first_type), delimiter(first)),
        !occurs_in(first_data, delimiter(first)),
        !occurs_in(text(escaped(second_name)), delimiter(second)),
        !occurs_in(text(second_type), delimiter(second)),
        !occurs_in(second_data, delimiter(second)),
    ensures
        delimiter(first) != delimiter(second),
        ({
            let body = framed(first, first_name, first_type, first_data);
            forall|i: int|
                occurs_at(body, delimiter(first), i) <==> (i == 0 || i == body.len() - 42)
        }),
        ({
            let body = framed(second, second_name, second_type, second_data);
            forall|i: int|
                occurs_at(body, delimiter(second), i) <==> (i == 0 || i == body.len() - 42)
        }),
{
    single_part_framing(first, first_name, first_type, first_data);
    single_part_framing(second, second_name, second_type, second_data);
    delimiter_bytes(first);
    delimiter_bytes(second);
    assert(is_ascii_chars(first));
    assert(is_ascii_chars(second));
    ascii_text(first);
    ascii_text(second);
    literal_bytes();
    if delimiter(first) == delimiter(second) {
        assert forall|j: int| 0 <= j < 36 implies first[j] == second[j] by {
            assert(delimiter(first)[j + 2] == first[j] as u8);
            assert(delimiter(second)[j + 2] == second[j] as u8);
        }
        assert(first =~= second);
    }
}

} // verus!
