use vstd::prelude::*;
use crate::framing::{
    ascii_bytes, boundary_marker, complexity_values, contains_bytes, crlf, double_crlf,
    file_field_name, form_parts, has_header_end, header_end, header_is_text, is_file_part,
    byte_views, form_matches, is_complexity_part, is_first_occurrence, MultipartForm, last_file, lemma_first_occurrence_unique, lemma_occurrences_ordered,
    occurrences_from, occurs_at, part_bounds, part_content, part_headers, strip_trailing_crlf,
};

verus! {

/// A form body that carries one file: the delimiter, the part's headers, the
/// blank line, the file, a line break, then the closing delimiter `--boundary--`
/// and a line break.
pub open spec fn single_file_form(boundary: Seq<u8>, headers: Seq<u8>, file: Seq<u8>) -> Seq<u8> {
    let m = boundary_marker(boundary);
    m + headers + double_crlf() + file + crlf() + m + ascii_bytes("--\r\n"@)
}

/// Whether a byte is a carriage return or a line feed.
pub open spec fn is_line_byte(b: u8) -> bool {
    b == 13u8 || b == 10u8
}

proof fn lemma_literals()
    ensures
        double_crlf() == seq![13u8, 10u8, 13u8, 10u8],
        crlf() == seq![13u8, 10u8],
        ascii_bytes("--"@) == seq![45u8, 45u8],
        ascii_bytes("--\r\n"@) == seq![45u8, 45u8, 13u8, 10u8],
{
    reveal_strlit("\r\n\r\n");
    reveal_strlit("\r\n");
    reveal_strlit("--");
    reveal_strlit("--\r\n");
    assert(double_crlf() =~= seq![13u8, 10u8, 13u8, 10u8]);
    assert(crlf() =~= seq![13u8, 10u8]);
    assert(ascii_bytes("--"@) =~= seq![45u8, 45u8]);
    assert(ascii_bytes("--\r\n"@) =~= seq![45u8, 45u8, 13u8, 10u8]);
}

/// A marker made of a text boundary holds no line byte.
proof fn lemma_marker_has_no_line_bytes(boundary: Seq<u8>)
    requires
        header_is_text(boundary),
    ensures
        forall|k: int|
            0 <= k < boundary_marker(boundary).len() ==> !is_line_byte(
                #[trigger] boundary_marker(boundary)[k],
            ),
        boundary_marker(boundary).len() == boundary.len() + 2,
{
    lemma_literals();
    let m = boundary_marker(boundary);
    assert forall|k: int| 0 <= k < m.len() implies !is_line_byte(#[trigger] m[k]) by {
        if k >= 2 {
            assert(m[k] == boundary[k - 2]);
        }
    }
}

/// Where a pattern occurs, the text holds the pattern's bytes.
proof fn lemma_occurrence_bytes(s: Seq<u8>, pat: Seq<u8>, i: int, p: int)
    requires
        occurs_at(s, pat, i),
        i <= p < i + pat.len(),
    ensures
        s[p] == pat[p - i],
{
    assert(s.subrange(i, i + pat.len())[p - i] == s[p]);
}

/// Without occurrences between `i` and `j`, the occurrences from `i` on are
/// those from `j` on.
proof fn lemma_skip_free_range(s: Seq<u8>, pat: Seq<u8>, i: int, j: int)
    requires
        0 <= i <= j,
        forall|k: int| i <= k < j ==> !occurs_at(s, pat, k),
    ensures
        occurrences_from(s, pat, i) == occurrences_from(s, pat, j),
    decreases j - i,
{
    if i < j {
        lemma_skip_free_range(s, pat, i + 1, j);
        if !(i < 0 || i >= s.len() || i + pat.len() > s.len()) {
            assert(!occurs_at(s, pat, i));
        } else {
            assert(occurrences_from(s, pat, j) =~= Seq::<int>::empty()) by {
                if !(j < 0 || j >= s.len() || j + pat.len() > s.len()) {
                    assert(false);
                }
            }
        }
    }
}

/// A text whose only carriage return is its second-to-last byte holds no blank line.
proof fn lemma_tail_has_no_blank_line(t: Seq<u8>, part: Seq<u8>, a: int, b: int)
    requires
        0 <= a <= b <= t.len(),
        part == t.subrange(a, b),
        forall|k: int| 0 <= k < t.len() && t[k] == 13u8 ==> k == t.len() - 2,
    ensures
        !has_header_end(part),
{
    lemma_literals();
    if has_header_end(part) {
        let i = choose|i: int| occurs_at(part, double_crlf(), i);
        lemma_occurrence_bytes(part, double_crlf(), i, i);
        lemma_occurrence_bytes(part, double_crlf(), i, i + 2);
        assert(part[i] == t[a + i]);
        assert(part[i + 2] == t[a + i + 2]);
    }
}

/// The file of parts whose only file part is the first.
proof fn lemma_last_file_first(parts: Seq<Seq<u8>>, n: int)
    requires
        1 <= n <= parts.len(),
        forall|k: int| 1 <= k < parts.len() ==> !has_header_end(#[trigger] parts[k]),
    ensures
        last_file(parts.take(n)) == last_file(parts.take(1)),
        complexity_values(parts.take(n)) == complexity_values(parts.take(1)),
    decreases n,
{
    if n > 1 {
        let p = parts.take(n);
        assert(p.drop_last() =~= parts.take(n - 1));
        assert(p.last() == parts[n - 1]);
        lemma_last_file_first(parts, n - 1);
    }
}

/// The conditions under which a one-file form reads back its file.
pub open spec fn roundtrip_conditions(boundary: Seq<u8>, headers: Seq<u8>, file: Seq<u8>) -> bool {
    &&& header_is_text(boundary)
    &&& headers.len() > 0
    &&& headers[0] == 13u8
    &&& contains_bytes(headers, file_field_name())
    &&& is_first_occurrence(headers + double_crlf(), double_crlf(), headers.len() as int)
    &&& !contains_bytes(headers, boundary_marker(boundary))
    &&& !contains_bytes(file, boundary_marker(boundary))
}

/// The part of a one-file form that carries the file.
pub open spec fn file_part_of(boundary: Seq<u8>, headers: Seq<u8>, file: Seq<u8>) -> Seq<u8> {
    boundary_marker(boundary) + headers + double_crlf() + file + crlf()
}

/// The closing delimiter of a form.
pub open spec fn closing_of(boundary: Seq<u8>) -> Seq<u8> {
    boundary_marker(boundary) + ascii_bytes("--\r\n"@)
}

proof fn lemma_form_split(boundary: Seq<u8>, headers: Seq<u8>, file: Seq<u8>)
    ensures
        single_file_form(boundary, headers, file) =~= file_part_of(boundary, headers, file)
            + closing_of(boundary),
{
}

/// The delimiter occurs nowhere inside the file part but at its start.
proof fn lemma_no_marker_inside(boundary: Seq<u8>, headers: Seq<u8>, file: Seq<u8>, i: int)
    requires
        roundtrip_conditions(boundary, headers, file),
        1 <= i < file_part_of(boundary, headers, file).len(),
    ensures
        !occurs_at(single_file_form(boundary, headers, file), boundary_marker(boundary), i),
{
    lemma_literals();
    lemma_marker_has_no_line_bytes(boundary);
    lemma_form_split(boundary, headers, file);
    let m = boundary_marker(boundary);
    let first = file_part_of(boundary, headers, file);
    let body = single_file_form(boundary, headers, file);
    let lm = m.len() as int;
    let lh = headers.len() as int;
    let la = first.len() as int;
    let f0 = lm + lh + 4;
    if occurs_at(body, m, i) {
        if i < lm {
            lemma_occurrence_bytes(body, m, i, lm);
            assert(body[lm] == first[lm]);
            assert(first[lm] == headers[0]);
        } else if i < lm + lh {
            if i + lm <= lm + lh {
                assert forall|k: int| 0 <= k < lm implies headers[i - lm + k] == #[trigger] m[k] by {
                    lemma_occurrence_bytes(body, m, i, i + k);
                    assert(body[i + k] == first[i + k]);
                }
                assert(headers.subrange(i - lm, i - lm + lm) =~= m);
                assert(occurs_at(headers, m, i - lm));
            } else {
                lemma_occurrence_bytes(body, m, i, lm + lh);
                assert(body[lm + lh] == first[lm + lh]);
                assert(first[lm + lh] == double_crlf()[0]);
            }
        } else if i < f0 {
            lemma_occurrence_bytes(body, m, i, i);
            assert(body[i] == first[i]);
            assert(first[i] == double_crlf()[i - lm - lh]);
        } else if i < la - 2 {
            if i + lm <= la - 2 {
                assert forall|k: int| 0 <= k < lm implies file[i - f0 + k] == #[trigger] m[k] by {
                    lemma_occurrence_bytes(body, m, i, i + k);
                    assert(body[i + k] == first[i + k]);
                }
                assert(file.subrange(i - f0, i - f0 + lm) =~= m);
                assert(occurs_at(file, m, i - f0));
            } else {
                lemma_occurrence_bytes(body, m, i, la - 2);
                assert(body[la - 2] == first[la - 2]);
                assert(first[la - 2] == crlf()[0]);
            }
        } else {
            lemma_occurrence_bytes(body, m, i, i);
            assert(body[i] == first[i]);
            assert(first[i] == crlf()[i - la + 2]);
        }
    }
}

/// The headers of the file part end at the blank line after the given headers.
proof fn lemma_file_part_header_end(boundary: Seq<u8>, headers: Seq<u8>, file: Seq<u8>)
    requires
        roundtrip_conditions(boundary, headers, file),
    ensures
        has_header_end(file_part_of(boundary, headers, file)),
        header_end(file_part_of(boundary, headers, file)) == boundary_marker(boundary).len()
            + headers.len(),
{
    lemma_literals();
    lemma_marker_has_no_line_bytes(boundary);
    let m = boundary_marker(boundary);
    let d = double_crlf();
    let first = file_part_of(boundary, headers, file);
    let lm = m.len() as int;
    let lh = headers.len() as int;
    let hd = headers + d;
    assert(first =~= m + hd + file + crlf());
    assert(first.subrange(lm + lh, lm + lh + 4) =~= d);
    assert(occurs_at(first, d, lm + lh));
    assert forall|j: int| 0 <= j < lm + lh implies !occurs_at(first, d, j) by {
        if occurs_at(first, d, j) {
            lemma_occurrence_bytes(first, d, j, j);
            if j < lm {
                assert(first[j] == m[j]);
            } else {
                assert forall|k: int| 0 <= k < 4 implies hd[j - lm + k] == #[trigger] d[k] by {
                    lemma_occurrence_bytes(first, d, j, j + k);
                    assert(first[j + k] == hd[j - lm + k]);
                }
                assert(hd.subrange(j - lm, j - lm + 4) =~= d);
                assert(occurs_at(hd, d, j - lm));
            }
        }
    }
    assert(is_first_occurrence(first, d, lm + lh));
    assert(exists|x: int| is_first_occurrence(first, d, x));
    lemma_first_occurrence_unique(first, d, lm + lh, header_end(first));
}

/// The file part names the file, and its content is the file and a line break.
proof fn lemma_file_part(boundary: Seq<u8>, headers: Seq<u8>, file: Seq<u8>)
    requires
        roundtrip_conditions(boundary, headers, file),
    ensures
        is_file_part(file_part_of(boundary, headers, file)),
        strip_trailing_crlf(part_content(file_part_of(boundary, headers, file))) == file,
{
    lemma_literals();
    lemma_file_part_header_end(boundary, headers, file);
    let m = boundary_marker(boundary);
    let c = crlf();
    let first = file_part_of(boundary, headers, file);
    let lm = m.len() as int;
    let lh = headers.len() as int;
    let lf = file.len() as int;
    assert(part_headers(first) =~= m + headers);
    let fi = choose|i: int| occurs_at(headers, file_field_name(), i);
    assert((m + headers).subrange(lm + fi, lm + fi + file_field_name().len()) =~= headers.subrange(
        fi,
        fi + file_field_name().len(),
    ));
    assert(occurs_at(m + headers, file_field_name(), lm + fi));
    assert(part_content(first) =~= file + c);
    assert((file + c).subrange(lf, lf + 2) =~= c);
    assert(strip_trailing_crlf(file + c) =~= file);
}

/// Reading a form that carries one file gives back that file and no
/// complexity, provided the boundary is text, the part's headers open with a
/// line break, name the file and end at the blank line, and neither the
/// headers nor the file hold the delimiter.
pub proof fn lemma_single_file_form_roundtrip(boundary: Seq<u8>, headers: Seq<u8>, file: Seq<u8>)
    requires
        roundtrip_conditions(boundary, headers, file),
    ensures
        last_file(form_parts(single_file_form(boundary, headers, file), boundary_marker(boundary)))
            == Some(file),
        complexity_values(form_parts(single_file_form(boundary, headers, file), boundary_marker(boundary)))
            == Seq::<Seq<u8>>::empty(),
{
    lemma_literals();
    lemma_marker_has_no_line_bytes(boundary);
    lemma_form_split(boundary, headers, file);
    let m = boundary_marker(boundary);
    let first = file_part_of(boundary, headers, file);
    let t = closing_of(boundary);
    let body = single_file_form(boundary, headers, file);
    let lm = m.len() as int;
    let la = first.len() as int;
    assert(body.subrange(0, lm) =~= m);
    assert(occurs_at(body, m, 0));
    assert(body.subrange(la, la + lm) =~= m);
    assert(occurs_at(body, m, la));
    assert forall|i: int| 1 <= i < la implies !occurs_at(body, m, i) by {
        lemma_no_marker_inside(boundary, headers, file, i);
    }
    lemma_skip_free_range(body, m, 1, la);
    let rest = occurrences_from(body, m, la + 1);
    assert(occurrences_from(body, m, 0) == seq![0int] + occurrences_from(body, m, 1));
    assert(occurrences_from(body, m, la) == seq![la] + rest);
    lemma_occurrences_ordered(body, m, la + 1);
    let bounds = part_bounds(body, m);
    assert(bounds =~= (seq![0int, la] + rest).push(body.len() as int));
    let parts = form_parts(body, m);
    assert(parts.len() == rest.len() + 2);
    assert(parts[0] =~= first);
    assert forall|k: int| 0 <= k < t.len() && t[k] == 13u8 implies k == t.len() - 2 by {
        if k < lm {
            assert(t[k] == m[k]);
        } else {
            assert(t[k] == ascii_bytes("--\r\n"@)[k - lm]);
        }
    }
    assert forall|k: int| 1 <= k < parts.len() implies !has_header_end(#[trigger] parts[k]) by {
        let lo = bounds[k];
        let hi = bounds[k + 1];
        if k >= 2 {
            assert(bounds[k] == rest[k - 2]);
            assert(occurs_at(body, m, rest[k - 2]));
        }
        if k + 1 < parts.len() {
            assert(bounds[k + 1] == rest[k - 1]);
            assert(occurs_at(body, m, rest[k - 1]));
            if k >= 2 {
                assert(rest[k - 2] < rest[k - 1]);
            }
        }
        assert(la <= lo <= hi <= body.len());
        assert(parts[k] =~= t.subrange(lo - la, hi - la));
        lemma_tail_has_no_blank_line(t, parts[k], lo - la, hi - la);
    }
    lemma_file_part(boundary, headers, file);
    lemma_last_file_first(parts, parts.len() as int);
    assert(parts.take(parts.len() as int) =~= parts);
    let one = parts.take(1);
    assert(one.last() == first);
    assert(one.drop_last() =~= Seq::<Seq<u8>>::empty());
    assert(!is_complexity_part(first));
    assert(complexity_values(one) == complexity_values(one.drop_last()));
}

/// What `parse_multipart` reads of a form that carries one file: the file
/// itself, and no complexity.
pub proof fn lemma_parsed_single_file_form(
    form: MultipartForm,
    boundary: Seq<u8>,
    headers: Seq<u8>,
    file: Seq<u8>,
)
    requires
        roundtrip_conditions(boundary, headers, file),
        form_matches(form, single_file_form(boundary, headers, file), boundary),
    ensures
        form.file matches Some(f) && f@ == file,
        form.complexity_values@.len() == 0,
{
    lemma_single_file_form_roundtrip(boundary, headers, file);
    assert(byte_views(form.complexity_values@).len() == form.complexity_values@.len());
}

} // verus!
