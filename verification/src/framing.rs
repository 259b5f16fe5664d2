use vstd::prelude::*;
use vstd::utf8::{encode_utf8, valid_utf8};
use crate::error::{Result, RhythmixError};

verus! {

broadcast use vstd::string::group_string_axioms;

/// The bytes of a text made of ASCII characters.
pub open spec fn ascii_bytes(s: Seq<char>) -> Seq<u8> {
    Seq::new(s.len(), |i: int| s[i] as u8)
}

/// The blank line that ends the headers of a form part.
pub open spec fn double_crlf() -> Seq<u8> {
    ascii_bytes("\r\n\r\n"@)
}

/// A line break.
pub open spec fn crlf() -> Seq<u8> {
    ascii_bytes("\r\n"@)
}

/// What the headers of the part carrying the audio file hold.
pub open spec fn file_field_name() -> Seq<u8> {
    ascii_bytes("name=\"file\""@)
}

/// What the headers of the part carrying the complexity hold.
pub open spec fn complexity_field_name() -> Seq<u8> {
    ascii_bytes("name=\"complexity\""@)
}

/// The key that introduces the boundary in a content type.
pub open spec fn boundary_key() -> Seq<u8> {
    ascii_bytes("boundary="@)
}

/// The delimiter that starts each part of a form with the given boundary.
pub open spec fn boundary_marker(boundary: Seq<u8>) -> Seq<u8> {
    ascii_bytes("--"@) + boundary
}

/// Whether `pat` occurs in `s` at position `i`.
pub open spec fn occurs_at(s: Seq<u8>, pat: Seq<u8>, i: int) -> bool {
    0 <= i && i + pat.len() <= s.len() && s.subrange(i, i + pat.len()) == pat
}

/// Whether `pat` occurs anywhere in `s`.
pub open spec fn contains_bytes(s: Seq<u8>, pat: Seq<u8>) -> bool {
    exists|i: int| occurs_at(s, pat, i)
}

/// Whether `i` is the first position at which `pat` occurs in `s`.
pub open spec fn is_first_occurrence(s: Seq<u8>, pat: Seq<u8>, i: int) -> bool {
    &&& occurs_at(s, pat, i)
    &&& forall|j: int| 0 <= j < i ==> !occurs_at(s, pat, j)
}

/// All positions, in increasing order, at which `pat` occurs in `s` from
/// position `i` on (occurrences may overlap).
pub open spec fn occurrences_from(s: Seq<u8>, pat: Seq<u8>, i: int) -> Seq<int>
    decreases s.len() - i,
{
    if i < 0 || i >= s.len() || i + pat.len() > s.len() {
        seq![]
    } else if occurs_at(s, pat, i) {
        seq![i] + occurrences_from(s, pat, i + 1)
    } else {
        occurrences_from(s, pat, i + 1)
    }
}

/// Where the parts of a form body start, followed by the end of the body:
/// each occurrence of the marker opens a part that runs to the next one.
pub open spec fn part_bounds(body: Seq<u8>, marker: Seq<u8>) -> Seq<int> {
    occurrences_from(body, marker, 0).push(body.len() as int)
}

/// The parts of a form body, each starting with its marker.
pub open spec fn form_parts(body: Seq<u8>, marker: Seq<u8>) -> Seq<Seq<u8>> {
    let b = part_bounds(body, marker);
    Seq::new((b.len() - 1) as nat, |k: int| body.subrange(b[k], b[k + 1]))
}

/// Whether a part has a blank line ending its headers.
pub open spec fn has_header_end(part: Seq<u8>) -> bool {
    contains_bytes(part, double_crlf())
}

/// Where the headers of a part end: the first blank line.
pub open spec fn header_end(part: Seq<u8>) -> int {
    choose|h: int| is_first_occurrence(part, double_crlf(), h)
}

/// The headers of a part.
pub open spec fn part_headers(part: Seq<u8>) -> Seq<u8> {
    part.subrange(0, header_end(part))
}

/// What follows the blank line of a part.
pub open spec fn part_content(part: Seq<u8>) -> Seq<u8> {
    part.subrange(header_end(part) + 4, part.len() as int)
}

/// Whether a part carries the audio file.
pub open spec fn is_file_part(part: Seq<u8>) -> bool {
    has_header_end(part) && contains_bytes(part_headers(part), file_field_name())
}

/// Whether a part carries the complexity (a part naming both is a file part).
pub open spec fn is_complexity_part(part: Seq<u8>) -> bool {
    &&& has_header_end(part)
    &&& !contains_bytes(part_headers(part), file_field_name())
    &&& contains_bytes(part_headers(part), complexity_field_name())
}

/// A content without the line break that ends it, if it ends with one.
pub open spec fn strip_trailing_crlf(c: Seq<u8>) -> Seq<u8> {
    if c.len() >= 2 && c.subrange(c.len() - 2, c.len() as int) == crlf() {
        c.subrange(0, c.len() - 2)
    } else {
        c
    }
}

/// The file that a sequence of parts carries: that of the last file part.
pub open spec fn last_file(parts: Seq<Seq<u8>>) -> Option<Seq<u8>>
    decreases parts.len(),
{
    if parts.len() == 0 {
        None
    } else if is_file_part(parts.last()) {
        Some(strip_trailing_crlf(part_content(parts.last())))
    } else {
        last_file(parts.drop_last())
    }
}

/// The complexity values that a sequence of parts carries, in order.
pub open spec fn complexity_values(parts: Seq<Seq<u8>>) -> Seq<Seq<u8>>
    decreases parts.len(),
{
    if parts.len() == 0 {
        seq![]
    } else if is_complexity_part(parts.last()) {
        complexity_values(parts.drop_last()).push(part_content(parts.last()))
    } else {
        complexity_values(parts.drop_last())
    }
}

/// The blank line is four bytes long.
pub proof fn lemma_double_crlf_len()
    ensures
        double_crlf().len() == 4,
{
    reveal_strlit("\r\n\r\n");
}

/// A first occurrence is unique.
pub proof fn lemma_first_occurrence_unique(s: Seq<u8>, pat: Seq<u8>, i: int, j: int)
    requires
        is_first_occurrence(s, pat, i),
        is_first_occurrence(s, pat, j),
    ensures
        i == j,
{
    if i < j {
        assert(!occurs_at(s, pat, i));
    } else if j < i {
        assert(!occurs_at(s, pat, j));
    }
}

/// The occurrences from `i` on lie in the text, from `i` on, in increasing order.
pub proof fn lemma_occurrences_ordered(s: Seq<u8>, pat: Seq<u8>, i: int)
    ensures
        forall|k: int|
            0 <= k < occurrences_from(s, pat, i).len() ==> {
                &&& i <= #[trigger] occurrences_from(s, pat, i)[k]
                &&& occurs_at(s, pat, occurrences_from(s, pat, i)[k])
            },
        forall|k1: int, k2: int|
            0 <= k1 < k2 < occurrences_from(s, pat, i).len() ==> occurrences_from(s, pat, i)[k1]
                < occurrences_from(s, pat, i)[k2],
    decreases s.len() - i,
{
    if i < 0 || i >= s.len() || i + pat.len() > s.len() {
    } else {
        lemma_occurrences_ordered(s, pat, i + 1);
        let rest = occurrences_from(s, pat, i + 1);
        if occurs_at(s, pat, i) {
            let all = seq![i] + rest;
            assert(occurrences_from(s, pat, i) == all);
            assert forall|k: int| 0 <= k < all.len() implies i <= #[trigger] all[k] && occurs_at(
                s,
                pat,
                all[k],
            ) by {
                if k > 0 {
                    assert(all[k] == rest[k - 1]);
                }
            }
            assert forall|k1: int, k2: int| 0 <= k1 < k2 < all.len() implies all[k1] < all[k2] by {
                assert(all[k2] == rest[k2 - 1]);
                if k1 > 0 {
                    assert(all[k1] == rest[k1 - 1]);
                }
            }
        }
    }
}

/// Whether `pat` occurs in `s` at position `i`.
fn occurs_at_exec(s: &[u8], pat: &[u8], i: usize) -> (r: bool)
    requires
        i + pat@.len() <= s@.len(),
    ensures
        r == occurs_at(s@, pat@, i as int),
{
    let n = pat.len();
    let mut k: usize = 0;
    while k < n
        invariant
            k <= n,
            n == pat@.len(),
            i + n <= s@.len(),
            s@.len() == s.len(),
            forall|m: int| 0 <= m < k ==> s@[i + m] == pat@[m],
        decreases n - k,
    {
        if s[i + k] != pat[k] {
            assert(s@.subrange(i as int, i + n)[k as int] != pat@[k as int]);
            return false;
        }
        k = k + 1;
    }
    assert(s@.subrange(i as int, i + n) =~= pat@);
    true
}

/// The first position at which the nonempty `pat` occurs in `s`.
pub fn find_bytes(s: &[u8], pat: &[u8]) -> (r: Option<usize>)
    requires
        pat@.len() > 0,
    ensures
        match r {
            Some(i) => is_first_occurrence(s@, pat@, i as int),
            None => !contains_bytes(s@, pat@),
        },
{
    if pat.len() > s.len() {
        return None;
    }
    let last = s.len() - pat.len();
    let mut i: usize = 0;
    while i <= last
        invariant
            i <= last + 1,
            last + pat@.len() == s@.len(),
            pat@.len() > 0,
            s@.len() == s.len(),
            forall|j: int| 0 <= j < i ==> !occurs_at(s@, pat@, j),
        decreases last + 1 - i,
    {
        if occurs_at_exec(s, pat, i) {
            return Some(i);
        }
        i = i + 1;
    }
    None
}

/// Whether the nonempty `pat` occurs in `s`.
pub fn contains_exec(s: &[u8], pat: &[u8]) -> (r: bool)
    requires
        pat@.len() > 0,
    ensures
        r == contains_bytes(s@, pat@),
{
    match find_bytes(s, pat) {
        Some(_) => true,
        None => false,
    }
}

fn double_crlf_bytes() -> (b: &'static [u8])
    ensures
        b@ == double_crlf(),
        b@.len() == 4,
{
    let s = "\r\n\r\n";
    proof {
        reveal_strlit("\r\n\r\n");
    }
    assert(vstd::string::is_ascii(s));
    s.as_bytes()
}

fn file_field_name_bytes() -> (b: &'static [u8])
    ensures
        b@ == file_field_name(),
        b@.len() > 0,
{
    let s = "name=\"file\"";
    proof {
        reveal_strlit("name=\"file\"");
    }
    assert(vstd::string::is_ascii(s));
    s.as_bytes()
}

fn complexity_field_name_bytes() -> (b: &'static [u8])
    ensures
        b@ == complexity_field_name(),
        b@.len() > 0,
{
    let s = "name=\"complexity\"";
    proof {
        reveal_strlit("name=\"complexity\"");
    }
    assert(vstd::string::is_ascii(s));
    s.as_bytes()
}

/// Finds where the headers of a part end: the first blank line (`\r\n\r\n`).
pub fn find_double_crlf(bytes: &[u8]) -> (r: Option<usize>)
    ensures
        match r {
            Some(i) => is_first_occurrence(bytes@, double_crlf(), i as int),
            None => !contains_bytes(bytes@, double_crlf()),
        },
{
    find_bytes(bytes, double_crlf_bytes())
}


/// The fields of a multipart form that the analysis reads.
pub struct MultipartForm {
    /// The content of the last part naming the file, without its final line break.
    pub file: Option<Vec<u8>>,
    /// The contents of the parts naming the complexity, in order.
    pub complexity_values: Vec<Vec<u8>>,
}

/// The views of a sequence of byte vectors.
pub open spec fn byte_views(v: Seq<Vec<u8>>) -> Seq<Seq<u8>> {
    v.map_values(|x: Vec<u8>| x@)
}

/// Positions as mathematical integers.
pub open spec fn as_ints(v: Seq<usize>) -> Seq<int> {
    v.map_values(|p: usize| p as int)
}

/// What a form body with the given boundary holds of the file and the complexity.
pub open spec fn form_matches(form: MultipartForm, body: Seq<u8>, boundary: Seq<u8>) -> bool {
    let parts = form_parts(body, boundary_marker(boundary));
    &&& match form.file {
        Some(f) => last_file(parts) == Some(f@),
        None => last_file(parts) is None,
    }
    &&& byte_views(form.complexity_values@) == complexity_values(parts)
}

fn marker_bytes(boundary: &str) -> (m: Vec<u8>)
    ensures
        m@ == boundary_marker(encode_utf8(boundary@)),
        m@.len() >= 2,
{
    let dashes = "--";
    proof {
        reveal_strlit("--");
    }
    assert(vstd::string::is_ascii(dashes));
    let mut m: Vec<u8> = vstd::slice::slice_to_vec(dashes.as_bytes());
    let b = boundary.as_bytes();
    let ghost m0 = m@;
    let mut i: usize = 0;
    while i < b.len()
        invariant
            i <= b@.len(),
            m0 == ascii_bytes("--"@),
            m0.len() == 2,
            b@ == encode_utf8(boundary@),
            m@ == m0 + b@.subrange(0, i as int),
        decreases b@.len() - i,
    {
        m.push(b[i]);
        assert(b@.subrange(0, i + 1) =~= b@.subrange(0, i as int).push(b@[i as int]));
        i = i + 1;
    }
    assert(b@.subrange(0, b@.len() as int) =~= b@);
    m
}

fn strip_crlf(content: &[u8]) -> (r: Vec<u8>)
    ensures
        r@ == strip_trailing_crlf(content@),
{
    let crlf_text = "\r\n";
    proof {
        reveal_strlit("\r\n");
    }
    assert(crlf() =~= seq![13u8, 10u8]);
    let n = content.len();
    if n >= 2 && content[n - 2] == 13u8 && content[n - 1] == 10u8 {
        assert(content@.subrange(n - 2, n as int) =~= crlf());
        vstd::slice::slice_to_vec(&content[0..n - 2])
    } else {
        if n >= 2 {
            assert(content@.subrange(n - 2, n as int)[0] == content@[n - 2]);
            assert(content@.subrange(n - 2, n as int)[1] == content@[n - 1]);
        }
        vstd::slice::slice_to_vec(content)
    }
}

/// Reads the parts of a multipart form body with the given boundary: each
/// occurrence of `--boundary` opens a part that runs to the next one; a
/// part's headers end at its first blank line; the last part whose headers
/// name the file gives the file (without a final line break), and each other
/// part whose headers name the complexity gives a complexity value.
pub fn parse_multipart(bytes: &[u8], boundary: &str) -> (form: MultipartForm)
    ensures
        form_matches(form, bytes@, encode_utf8(boundary@)),
{
    let marker = marker_bytes(boundary);
    let ghost m = marker@;
    let ghost s = bytes@;
    let mlen = marker.len();
    let mut positions: Vec<usize> = Vec::new();
    if mlen <= bytes.len() {
        let last = bytes.len() - mlen;
        let mut i: usize = 0;
        while i <= last
            invariant
                i <= last + 1,
                last + mlen == s.len(),
                mlen == m.len(),
                mlen >= 2,
                s == bytes@,
                s.len() == bytes.len(),
                m == marker@,
                as_ints(positions@) + occurrences_from(s, m, i as int) == occurrences_from(s, m, 0),
            decreases last + 1 - i,
        {
            let ghost before = positions@;
            if occurs_at_exec(bytes, marker.as_slice(), i) {
                positions.push(i);
                assert(as_ints(positions@) =~= as_ints(before).push(i as int));
                assert(occurrences_from(s, m, i as int) == seq![i as int] + occurrences_from(
                    s,
                    m,
                    i + 1,
                ));
                assert(as_ints(before) + occurrences_from(s, m, i as int) =~= as_ints(positions@)
                    + occurrences_from(s, m, i + 1));
            } else {
                assert(occurrences_from(s, m, i as int) == occurrences_from(s, m, i + 1));
            }
            i = i + 1;
        }
        assert(occurrences_from(s, m, i as int) =~= Seq::<int>::empty());
        assert(as_ints(positions@) =~= as_ints(positions@) + occurrences_from(s, m, i as int));
    } else {
        assert(occurrences_from(s, m, 0) =~= Seq::<int>::empty());
        assert(as_ints(positions@) =~= Seq::<int>::empty());
    }
    assert(as_ints(positions@) == occurrences_from(s, m, 0));
    proof {
        lemma_occurrences_ordered(s, m, 0);
    }
    let ghost parts = form_parts(s, m);
    let ghost bounds = part_bounds(s, m);
    assert(bounds =~= as_ints(positions@).push(s.len() as int));
    let n = positions.len();
    let mut file: Option<Vec<u8>> = None;
    let mut values: Vec<Vec<u8>> = Vec::new();
    let mut k: usize = 0;
    assert(parts.take(0) =~= Seq::<Seq<u8>>::empty());
    assert(byte_views(values@) =~= Seq::<Seq<u8>>::empty());
    while k < n
        invariant
            k <= n,
            n == positions@.len(),
            s == bytes@,
            s.len() == bytes.len(),
            parts == form_parts(s, m),
            bounds == part_bounds(s, m),
            parts.len() == n,
            bounds == as_ints(positions@).push(s.len() as int),
            as_ints(positions@) == occurrences_from(s, m, 0),
            forall|j: int|
                0 <= j < occurrences_from(s, m, 0).len() ==> {
                    &&& 0 <= #[trigger] occurrences_from(s, m, 0)[j]
                    &&& occurs_at(s, m, occurrences_from(s, m, 0)[j])
                },
            forall|j1: int, j2: int|
                0 <= j1 < j2 < occurrences_from(s, m, 0).len() ==> occurrences_from(s, m, 0)[j1]
                    < occurrences_from(s, m, 0)[j2],
            match file {
                Some(f) => last_file(parts.take(k as int)) == Some(f@),
                None => last_file(parts.take(k as int)) is None,
            },
            byte_views(values@) == complexity_values(parts.take(k as int)),
        decreases n - k,
    {
        let start = positions[k];
        let end = if k + 1 < n {
            positions[k + 1]
        } else {
            bytes.len()
        };
        assert(bounds[k as int] == start);
        assert(bounds[k + 1] == end);
        assert(occurs_at(s, m, as_ints(positions@)[k as int]));
        if k + 1 < n {
            assert(as_ints(positions@)[k as int] < as_ints(positions@)[k + 1]);
        }
        let part = &bytes[start..end];
        assert(part@ == parts[k as int]);
        let ghost prefix = parts.take(k + 1);
        assert(prefix.drop_last() =~= parts.take(k as int));
        assert(prefix.last() == parts[k as int]);
        let ghost old_values = values@;
        match find_double_crlf(part) {
            Some(h) => {
                assert(exists|x: int| is_first_occurrence(part@, double_crlf(), x));
                proof {
                    lemma_first_occurrence_unique(part@, double_crlf(), h as int, header_end(part@));
                }
                assert(has_header_end(part@));
                proof {
                    lemma_double_crlf_len();
                }
                let headers = &part[0..h];
                let content = &part[h + 4..part.len()];
                assert(headers@ == part_headers(part@));
                assert(content@ == part_content(part@));
                if contains_exec(headers, file_field_name_bytes()) {
                    file = Some(strip_crlf(content));
                } else if contains_exec(headers, complexity_field_name_bytes()) {
                    values.push(vstd::slice::slice_to_vec(content));
                    assert(byte_views(values@) =~= byte_views(old_values).push(content@));
                }
            },
            None => {},
        }
        k = k + 1;
    }
    assert(parts.take(n as int) =~= parts);
    MultipartForm { file, complexity_values: values }
}


/// The error of a form without a file.
pub open spec fn no_file_message() -> Seq<char> {
    "No file found in request"@
}

impl MultipartForm {
    /// The uploaded file, or the error of a request that holds none.
    pub fn into_file(self) -> (r: Result<Vec<u8>>)
        ensures
            match self.file {
                Some(f) => r == Ok::<Vec<u8>, RhythmixError>(f),
                None => r matches Err(RhythmixError::InvalidRequest(m)) && m@ == no_file_message(),
            },
    {
        match self.file {
            Some(f) => Ok(f),
            None => Err(RhythmixError::InvalidRequest("No file found in request".to_owned())),
        }
    }
}

/// Whether `b` is a byte that a header value may hold and still be read as
/// text: visible ASCII or a tab.
pub open spec fn is_visible_ascii(b: u8) -> bool {
    (32 <= b && b < 127) || b == 9
}

/// Whether every byte of a header value is visible ASCII or a tab.
pub open spec fn header_is_text(v: Seq<u8>) -> bool {
    forall|i: int| 0 <= i < v.len() ==> is_visible_ascii(#[trigger] v[i])
}

/// Where the first occurrence of `pat` in `s` starts, when there is one.
pub open spec fn first_occurrence(s: Seq<u8>, pat: Seq<u8>) -> int {
    choose|i: int| is_first_occurrence(s, pat, i)
}

/// The second piece of a content type split at `boundary=`: what follows the
/// first `boundary=` up to the next one or the end, if there is a first one.
pub open spec fn boundary_piece(v: Seq<u8>) -> Option<Seq<u8>> {
    if !contains_bytes(v, boundary_key()) {
        None
    } else {
        let rest = v.subrange(first_occurrence(v, boundary_key()) + 9, v.len() as int);
        if contains_bytes(rest, boundary_key()) {
            Some(rest.subrange(0, first_occurrence(rest, boundary_key())))
        } else {
            Some(rest)
        }
    }
}

/// The error of a request without a content type.
pub open spec fn missing_content_type_message() -> Seq<char> {
    "Missing content-type header"@
}

/// The error of a content type that is not text.
pub open spec fn invalid_content_type_message() -> Seq<char> {
    "Invalid content-type header"@
}

/// The error of a content type without a boundary.
pub open spec fn missing_boundary_message() -> Seq<char> {
    "Missing boundary in content-type"@
}

/// What reading the boundary of a request with the given content-type value gives.
pub open spec fn boundary_result_matches(content_type: Option<Seq<u8>>, r: Result<String>) -> bool {
    match content_type {
        None => r matches Err(RhythmixError::InvalidRequest(m)) && m@ == missing_content_type_message(),
        Some(v) => if !header_is_text(v) {
            r matches Err(RhythmixError::InvalidRequest(m)) && m@ == invalid_content_type_message()
        } else {
            match boundary_piece(v) {
                None => r matches Err(RhythmixError::InvalidRequest(m)) && m@
                    == missing_boundary_message(),
                Some(b) => r matches Ok(s) && encode_utf8(s@) == b,
            }
        },
    }
}

/// Calls `String::from_utf8`, which, as its documentation says, succeeds
/// exactly when the bytes are valid UTF-8 and then holds those very bytes.
#[verifier::external_body]
fn string_from_utf8(v: Vec<u8>) -> (r: Option<String>)
    ensures
        r is Some <==> valid_utf8(v@),
        r matches Some(s) ==> encode_utf8(s@) == v@,
{
    String::from_utf8(v).ok()
}

fn boundary_key_bytes() -> (b: &'static [u8])
    ensures
        b@ == boundary_key(),
        b@.len() == 9,
{
    let s = "boundary=";
    proof {
        reveal_strlit("boundary=");
    }
    assert(vstd::string::is_ascii(s));
    s.as_bytes()
}

fn is_header_text(v: &[u8]) -> (r: bool)
    ensures
        r == header_is_text(v@),
{
    let mut i: usize = 0;
    while i < v.len()
        invariant
            i <= v@.len(),
            forall|j: int| 0 <= j < i ==> is_visible_ascii(#[trigger] v@[j]),
        decreases v@.len() - i,
    {
        let b = v[i];
        if !((32u8 <= b && b < 127u8) || b == 9u8) {
            return false;
        }
        i = i + 1;
    }
    true
}

/// Reads the boundary of a multipart request from the value of its
/// content-type header, absent when the request has none.
pub fn get_boundary(content_type: Option<&[u8]>) -> (r: Result<String>)
    ensures
        boundary_result_matches(
            match content_type {
                Some(v) => Some(v@),
                None => None,
            },
            r,
        ),
{
    let v = match content_type {
        None => {
            return Err(RhythmixError::InvalidRequest("Missing content-type header".to_owned()));
        },
        Some(v) => v,
    };
    if !is_header_text(v) {
        return Err(RhythmixError::InvalidRequest("Invalid content-type header".to_owned()));
    }
    let key = boundary_key_bytes();
    let p = match find_bytes(v, key) {
        None => {
            return Err(
                RhythmixError::InvalidRequest("Missing boundary in content-type".to_owned()),
            );
        },
        Some(p) => p,
    };
    assert(exists|x: int| is_first_occurrence(v@, boundary_key(), x));
    proof {
        lemma_first_occurrence_unique(v@, boundary_key(), p as int, first_occurrence(v@, boundary_key()));
    }
    assert(occurs_at(v@, key@, p as int));
    let vlen = v.len();
    assert(p + 9 <= vlen);
    let rest = &v[p + 9..vlen];
    let piece = match find_bytes(rest, key) {
        Some(q) => {
            assert(exists|x: int| is_first_occurrence(rest@, boundary_key(), x));
            proof {
                lemma_first_occurrence_unique(
                    rest@,
                    boundary_key(),
                    q as int,
                    first_occurrence(rest@, boundary_key()),
                );
            }
            &rest[0..q]
        },
        None => rest,
    };
    let ghost b = piece@;
    assert(header_is_text(b)) by {
        assert forall|i: int| 0 <= i < b.len() implies is_visible_ascii(#[trigger] b[i]) by {
            assert(b[i] == v@[p + 9 + i]);
        }
    }
    let ghost chars = Seq::new(b.len(), |i: int| b[i] as char);
    assert(vstd::utf8::is_ascii_chars(chars));
    proof {
        vstd::utf8::is_ascii_chars_encode_utf8(chars);
        vstd::utf8::encode_utf8_valid_utf8(chars);
    }
    assert(encode_utf8(chars) =~= b);
    match string_from_utf8(vstd::slice::slice_to_vec(piece)) {
        Some(s) => Ok(s),
        None => Err(RhythmixError::InvalidRequest("Invalid content-type header".to_owned())),
    }
}


/// The key `boundary=` is nine bytes, of which only the first is a `b`.
proof fn lemma_boundary_key_bytes()
    ensures
        boundary_key().len() == 9,
        boundary_key()[0] == 98u8,
        forall|d: int| 1 <= d < 9 ==> boundary_key()[d] != 98u8,
{
    reveal_strlit("boundary=");
    assert(boundary_key() =~= seq![98u8, 111u8, 117u8, 110u8, 100u8, 97u8, 114u8, 121u8, 61u8]);
}

/// A content type that names a boundary after text free of `boundary=`, the
/// boundary itself free of it, gives that boundary back.
pub proof fn lemma_boundary_piece_roundtrip(prefix: Seq<u8>, boundary: Seq<u8>)
    requires
        !contains_bytes(prefix, boundary_key()),
        !contains_bytes(boundary, boundary_key()),
    ensures
        boundary_piece(prefix + boundary_key() + boundary) == Some(boundary),
{
    lemma_boundary_key_bytes();
    let key = boundary_key();
    let v = prefix + key + boundary;
    let n = prefix.len() as int;
    assert(v.subrange(n, n + 9) =~= key);
    assert(occurs_at(v, key, n));
    assert forall|j: int| 0 <= j < n implies !occurs_at(v, key, j) by {
        if occurs_at(v, key, j) {
            if j + 9 <= n {
                assert(prefix.subrange(j, j + 9) =~= v.subrange(j, j + 9));
                assert(occurs_at(prefix, key, j));
            } else {
                assert(v.subrange(j, j + 9)[n - j] == v[n]);
                assert(v[n] == key[0]);
            }
        }
    }
    assert(is_first_occurrence(v, key, n));
    lemma_first_occurrence_unique(v, key, n, first_occurrence(v, key));
    assert(v.subrange(n + 9, v.len() as int) =~= boundary);
}

/// Reading the boundary of such a content type, when it is text, succeeds
/// with the boundary that it names.
pub proof fn lemma_boundary_roundtrip(prefix: Seq<u8>, boundary: Seq<u8>, r: Result<String>)
    requires
        !contains_bytes(prefix, boundary_key()),
        !contains_bytes(boundary, boundary_key()),
        header_is_text(prefix + boundary_key() + boundary),
        boundary_result_matches(Some(prefix + boundary_key() + boundary), r),
    ensures
        r matches Ok(s) && encode_utf8(s@) == boundary,
{
    lemma_boundary_piece_roundtrip(prefix, boundary);
}

} // verus!
