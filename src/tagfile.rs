//! The tag-file format: `LABEL ": " VALUE` lines, read tolerantly and written canonically.
use crate::error::Error;
use crate::io::{all_valid, decoded_lines, first_invalid, lines_before_failure, fold_tag_lines, is_continuation, is_terminator, line_end, lines_spec, next_line_start, TagLineReader};
use crate::tag::{invalid_tag_error, tag_error_details, tag_valid, Tag, TagList};
use crate::text::{has_cr_or_lf, is_cr_or_lf, push_char, string_of_range, chars_of, white_space};
use vstd::prelude::*;
use vstd::slice::slice_to_vec;
use vstd::utf8::{encode_scalar, encode_utf8, encode_utf8_decode_utf8, encode_utf8_valid_utf8, has_width_1_encoding, valid_utf8};

verus! {

/// The index of the first `c` in `s`, or the length of `s` when there is none.
pub open spec fn index_of(s: Seq<char>, c: char) -> nat
    decreases s.len(),
{
    if s.len() == 0 {
        0
    } else if s[0] == c {
        0
    } else {
        1 + index_of(s.drop_first(), c)
    }
}

proof fn lemma_index_of(s: Seq<char>, c: char)
    ensures
        index_of(s, c) <= s.len(),
        index_of(s, c) < s.len() ==> s[index_of(s, c) as int] == c,
        forall|i: int| 0 <= i < index_of(s, c) ==> #[trigger] s[i] != c,
    decreases s.len(),
{
    if s.len() > 0 && s[0] != c {
        lemma_index_of(s.drop_first(), c);
        assert forall|i: int| 0 <= i < index_of(s, c) implies #[trigger] s[i] != c by {
            if i > 0 {
                assert(s[i] == s.drop_first()[i - 1]);
            }
        }
    }
}

/// The split of a tag line at its first `:`: the label is what precedes it verbatim, and the
/// value is what follows the one SPACE or TAB that must come next.
pub open spec fn split_tag_line(l: Seq<char>) -> Option<(Seq<char>, Seq<char>)> {
    let c = index_of(l, ':');
    if c < l.len() && c + 1 < l.len() && (l[c + 1int] == ' ' || l[c + 1int] == '\t') {
        Some((l.take(c as int), l.skip(c + 2int)))
    } else {
        None
    }
}

/// The line parses into a valid tag.
pub open spec fn tag_line_ok(l: Seq<char>) -> bool {
    split_tag_line(l) matches Some(t) && tag_valid(t)
}

/// The tags of a sequence of logical lines, each of which parses.
pub open spec fn parsed_tags(ls: Seq<Seq<char>>) -> Seq<(Seq<char>, Seq<char>)> {
    ls.map_values(|l: Seq<char>| split_tag_line(l).unwrap())
}

/// The logical lines of a tag file's contents: its lines, decoded, with continuations folded.
pub open spec fn tag_lines(b: Seq<u8>) -> Seq<Seq<char>> {
    fold_tag_lines(decoded_lines(lines_spec(b)))
}

/// Every line of the contents is UTF-8, and every logical line parses into a valid tag.
pub open spec fn tag_text_ok(b: Seq<u8>) -> bool {
    &&& all_valid(lines_spec(b))
    &&& forall|i: int| 0 <= i < tag_lines(b).len() ==> tag_line_ok(#[trigger] tag_lines(b)[i])
}

/// What an error of a tag or tag line says of its defect.
pub open spec fn error_details(e: Error) -> Seq<char> {
    match e {
        Error::InvalidTagLine { details } => details@,
        Error::InvalidTag { details, .. } => details@,
        _ => Seq::empty(),
    }
}

/// The defect that a tag line which does not parse into a valid tag is reported with.
pub open spec fn tag_line_error_details(l: Seq<char>) -> Seq<char> {
    match split_tag_line(l) {
        Some(t) => tag_error_details(t.0, t.1),
        None => if index_of(l, ':') >= l.len() {
            "Missing colon separating the label and value"@
        } else {
            "Value part must start with one whitespace character"@
        },
    }
}

/// The error of a tag file whose logical line `num` is the first that does not parse.
pub open spec fn bad_line_error(e: Error, path: Seq<char>, b: Seq<u8>) -> bool {
    match e {
        Error::InvalidTagLineWithRef { path: p, num, details } => p@ == path && first_bad_line(b, num - 1)
            && details@ == tag_line_error_details(tag_lines(b)[num - 1]),
        _ => false,
    }
}

/// The line number that a tag-line error names.
pub open spec fn error_line(e: Error) -> int {
    match e {
        Error::InvalidTagLineWithRef { num, .. } => num as int,
        _ => 0,
    }
}

/// The error of reading a tag file's contents, found at `path`, that is not well formed. Lines
/// are taken in order: the first logical line that does not parse is reported, unless a line
/// that is not UTF-8 comes before that logical line is complete; then that is reported as
/// `InvalidString`.
pub open spec fn tag_file_error(e: Error, path: Seq<char>, b: Seq<u8>) -> bool {
    ||| (e is InvalidString && exists|j: int| #[trigger] first_invalid(lines_spec(b), j)
        && forall|i: int| 0 <= i < lines_before_failure(lines_spec(b), j).len() ==> tag_line_ok(#[trigger] lines_before_failure(lines_spec(b), j)[i]))
    ||| (bad_line_error(e, path, b) && forall|j: int| #[trigger] first_invalid(lines_spec(b), j) ==> error_line(e) - 1 < lines_before_failure(lines_spec(b), j).len())
}

/// The index of the first logical line that does not parse into a valid tag.
pub open spec fn first_bad_line(s: Seq<u8>, k: int) -> bool {
    &&& 0 <= k < tag_lines(s).len()
    &&& !tag_line_ok(tag_lines(s)[k])
    &&& forall|i: int| 0 <= i < k ==> tag_line_ok(#[trigger] tag_lines(s)[i])
}

/// Parses one logical tag line, `LABEL ":" WS VALUE`, into a tag.
pub fn parse_tag_line(line: &str) -> (r: Result<Tag, Error>)
    ensures
        r matches Err(e) ==> error_details(e) == tag_line_error_details(line@),
        split_tag_line(line@) is None ==> (r matches Err(e) && e is InvalidTagLine),
        split_tag_line(line@) matches Some(t) ==> (r is Ok <==> tag_valid(t)),
        split_tag_line(line@) matches Some(t) ==> (r matches Ok(tag) ==> tag@ == t && tag.wf()),
        split_tag_line(line@) matches Some(t) ==> (r matches Err(e) ==> invalid_tag_error(e, t.0, t.1)),
{
    let cs = chars_of(line);
    let n = cs.len();
    let mut c: usize = 0;
    assert(line@.skip(0) =~= line@);
    while c < n && cs[c] != ':'
        invariant
            c <= n,
            n == cs@.len(),
            cs@ == line@,
            index_of(line@, ':') == c + index_of(line@.skip(c as int), ':'),
        decreases n - c,
    {
        proof {
            assert(line@.skip(c as int).drop_first() =~= line@.skip(c + 1));
        }
        c = c + 1;
    }
    proof {
        if c < n {
            assert(line@.skip(c as int)[0] == line@[c as int]);
        }
    }
    if c >= n {
        return Err(
            Error::InvalidTagLine {
                details: "Missing colon separating the label and value".to_owned(),
            },
        );
    }
    if c + 1 >= n || !(cs[c + 1] == ' ' || cs[c + 1] == '\t') {
        return Err(
            Error::InvalidTagLine {
                details: "Value part must start with one whitespace character".to_owned(),
            },
        );
    }
    let label = string_of_range(&cs, 0, c);
    let value = string_of_range(&cs, c + 2, n);
    proof {
        assert(label@ =~= line@.take(c as int));
        assert(value@ =~= line@.skip(c + 2));
    }
    Tag::new(label.as_str(), value.as_str())
}

/// One line of a written tag file: `LABEL ": " VALUE`.
pub open spec fn tag_line_text(t: (Seq<char>, Seq<char>)) -> Seq<char> {
    t.0 + seq![':', ' '] + t.1
}

/// The text of a tag file: each tag on its own line, each line ended by LF.
pub open spec fn tag_file_text(ts: Seq<(Seq<char>, Seq<char>)>) -> Seq<char>
    decreases ts.len(),
{
    if ts.len() == 0 {
        Seq::empty()
    } else {
        tag_file_text(ts.drop_last()) + tag_line_text(ts.last()) + seq!['\n']
    }
}

fn push_str_chars(out: &mut String, s: &str)
    ensures
        final(out)@ == old(out)@ + s@,
{
    let n = s.unicode_len();
    let ghost start = out@;
    let mut i: usize = 0;
    while i < n
        invariant
            i <= n,
            n == s@.len(),
            out@ == start + s@.take(i as int),
        decreases n - i,
    {
        push_char(out, s.get_char(i));
        i = i + 1;
        assert(out@ =~= start + s@.take(i as int));
    }
    assert(s@.take(i as int) =~= s@);
}

/// The contents of a tag file that holds the tags, in order.
pub fn tag_file_contents(tags: &TagList) -> (r: String)
    ensures
        r@ == tag_file_text(tags@),
{
    let mut out = String::new();
    let mut i: usize = 0;
    assert(tags@.take(0) =~= Seq::empty());
    while i < tags.len()
        invariant
            i <= tags@.len(),
            out@ == tag_file_text(tags@.take(i as int)),
        decreases tags@.len() - i,
    {
        let t = tags.get(i);
        push_str_chars(&mut out, t.label());
        push_char(&mut out, ':');
        push_char(&mut out, ' ');
        push_str_chars(&mut out, t.value());
        push_char(&mut out, '\n');
        proof {
            assert(tags@.take(i + 1).drop_last() =~= tags@.take(i as int));
        }
        i = i + 1;
        assert(out@ =~= tag_file_text(tags@.take(i as int)));
    }
    assert(tags@.take(i as int) =~= tags@);
    out
}

/// Reads a tag file's contents into a tag list. A logical line that fails to parse is
/// reported with the file's path, its 1-based number and the defect found.
pub fn read_tag_file(path: &str, contents: &[u8]) -> (r: Result<TagList, Error>)
    ensures
        r is Ok <==> tag_text_ok(contents@),
        r matches Ok(tags) ==> tags@ == parsed_tags(tag_lines(contents@)) && tags.wf(),
        r matches Err(e) ==> tag_file_error(e, path@, contents@),
{
    let ghost bytes = contents@;
    let mut reader = TagLineReader::new(slice_to_vec(contents));
    let mut tags = TagList::new();
    let mut count: usize = 0;
    loop
        invariant
            bytes == contents@,
            reader.wf(),
            !reader.failed(),
            tags.wf(),
            reader.lines() == lines_spec(bytes),
            count == reader.emitted().len(),
            reader.emitted().len() <= reader.lines().len(),
            forall|i: int| 0 <= i < reader.emitted().len() ==> tag_line_ok(#[trigger] reader.emitted()[i]),
            tags@ == parsed_tags(reader.emitted()),
        decreases reader.lines().len() - reader.emitted().len(),
    {
        let ghost before = reader.emitted();
        match reader.next_tag_line() {
            None => {
                proof {
                    assert(reader.emitted() == tag_lines(bytes));
                    assert forall|i: int| 0 <= i < tag_lines(bytes).len() implies tag_line_ok(#[trigger] tag_lines(bytes)[i]) by {
                        assert(tag_line_ok(reader.emitted()[i]));
                    }
                }
                return Ok(tags);
            },
            Some(Err(e)) => {
                proof {
                    let j = choose|j: int| #[trigger] first_invalid(lines_spec(bytes), j) && reader.emitted() == lines_before_failure(lines_spec(bytes), j);
                    assert(reader.emitted() == before);
                    assert forall|i: int| 0 <= i < lines_before_failure(lines_spec(bytes), j).len() implies tag_line_ok(#[trigger] lines_before_failure(lines_spec(bytes), j)[i]) by {
                        assert(tag_line_ok(before[i]));
                    }
                }
                return Err(e);
            },
            Some(Ok(line)) => {
                proof {
                    reader.lemma_emitted_bound();
                }
                count = count + 1;
                match parse_tag_line(line.as_str()) {
                    Ok(tag) => {
                        tags.add(tag);
                        assert(tags@ =~= parsed_tags(reader.emitted()));
                    },
                    Err(e) => {
                        let details = match e {
                            Error::InvalidTagLine { details } => details,
                            Error::InvalidTag { details, .. } => details,
                            _ => String::new(),
                        };
                        proof {
                            reader.lemma_emitted_prefix();
                            let em = reader.emitted();
                            assert(em == before.push(line@));
                            assert(em[count - 1] == line@);
                            assert(!tag_line_ok(line@));
                            assert(tag_lines(bytes)[count - 1] == line@);
                            assert forall|i: int| 0 <= i < count - 1 implies tag_line_ok(#[trigger] tag_lines(bytes)[i]) by {
                                assert(em[i] == before[i]);
                                assert(tag_line_ok(before[i]));
                            }
                            assert(first_bad_line(bytes, count - 1));
                            assert forall|j: int| #[trigger] first_invalid(lines_spec(bytes), j) implies count - 1 < lines_before_failure(lines_spec(bytes), j).len() by {
                                reader.lemma_emitted_before_failure(j);
                            }
                        }
                        return Err(
                            Error::InvalidTagLineWithRef { path: path.to_owned(), num: count, details },
                        );
                    },
                }
            },
        }
    }
}

proof fn lemma_index_of_append(x: Seq<char>, y: Seq<char>, c: char)
    requires
        !x.contains(c),
    ensures
        index_of(x + y, c) == x.len() + index_of(y, c),
    decreases x.len(),
{
    if x.len() > 0 {
        assert(x[0] != c);
        assert((x + y).drop_first() =~= x.drop_first() + y);
        assert(!x.drop_first().contains(c)) by {
            if x.drop_first().contains(c) {
                let i = choose|i: int| 0 <= i < x.drop_first().len() && x.drop_first()[i] == c;
                assert(x[i + 1] == c);
            }
        }
        lemma_index_of_append(x.drop_first(), y, c);
    } else {
        assert(x + y =~= y);
    }
}

proof fn lemma_fold_plain(ls: Seq<Seq<char>>)
    requires
        forall|i: int| 0 <= i < ls.len() ==> !is_continuation(#[trigger] ls[i]),
    ensures
        fold_tag_lines(ls) == ls,
    decreases ls.len(),
{
    if ls.len() > 0 {
        lemma_fold_plain(ls.drop_last());
        assert(!is_continuation(ls[ls.len() - 1]));
        assert(fold_tag_lines(ls) =~= ls);
    }
}

pub open spec fn round_trip_tag(t: (Seq<char>, Seq<char>)) -> bool {
    tag_valid(t) && !t.0.contains(':')
}

proof fn lemma_tag_line_parts(t: (Seq<char>, Seq<char>))
    requires
        round_trip_tag(t),
    ensures
        !has_cr_or_lf(tag_line_text(t)),
        !is_continuation(tag_line_text(t)),
        split_tag_line(tag_line_text(t)) == Some(t),
        tag_line_ok(tag_line_text(t)),
{
    let l = tag_line_text(t);
    assert(l =~= t.0 + (seq![':', ' '] + t.1));
    assert(!has_cr_or_lf(l)) by {
        if has_cr_or_lf(l) {
            let i = choose|i: int| 0 <= i < l.len() && is_cr_or_lf(#[trigger] l[i]);
            if i < t.0.len() {
                assert(l[i] == t.0[i]);
            } else if i >= t.0.len() + 2 {
                assert(l[i] == t.1[i - t.0.len() - 2]);
            }
        }
    }
    if t.0.len() > 0 {
        assert(l[0] == t.0[0]);
        assert(!white_space(t.0[0]));
    } else {
        assert(l[0] == ':');
    }
    lemma_index_of_append(t.0, seq![':', ' '] + t.1, ':');
    assert(index_of(seq![':', ' '] + t.1, ':') == 0);
    assert(l.take(t.0.len() as int) =~= t.0);
    assert(l.skip(t.0.len() + 2int) =~= t.1);
}

pub open spec fn has_terminator(x: Seq<u8>) -> bool {
    exists|i: int| 0 <= i < x.len() && is_terminator(#[trigger] x[i])
}

proof fn lemma_line_end_append(x: Seq<u8>, y: Seq<u8>)
    requires
        !has_terminator(x),
    ensures
        line_end(x + y) == x.len() + line_end(y),
    decreases x.len(),
{
    if x.len() > 0 {
        assert(!is_terminator(x[0]));
        assert((x + y).drop_first() =~= x.drop_first() + y);
        assert(!has_terminator(x.drop_first())) by {
            if has_terminator(x.drop_first()) {
                let i = choose|i: int| 0 <= i < x.drop_first().len() && is_terminator(#[trigger] x.drop_first()[i]);
                assert(x[i + 1] == x.drop_first()[i]);
            }
        }
        lemma_line_end_append(x.drop_first(), y);
    } else {
        assert(x + y =~= y);
    }
}

proof fn lemma_line_end_has_terminator(a: Seq<u8>, b: Seq<u8>)
    requires
        a.len() > 0,
        a.last() == 10,
    ensures
        line_end(a + b) == line_end(a),
        line_end(a) < a.len(),
    decreases a.len(),
{
    if !is_terminator(a[0]) {
        assert(a.len() > 1);
        assert((a + b).drop_first() =~= a.drop_first() + b);
        lemma_line_end_has_terminator(a.drop_first(), b);
    }
}

/// Lines never run across the end of bytes that end with LF.
proof fn lemma_lines_append(a: Seq<u8>, b: Seq<u8>)
    requires
        a.len() == 0 || a.last() == 10,
    ensures
        lines_spec(a + b) == lines_spec(a) + lines_spec(b),
    decreases a.len(),
{
    if a.len() == 0 {
        assert(a + b =~= b);
        assert(lines_spec(a) =~= Seq::<Seq<u8>>::empty());
        assert(lines_spec(a) + lines_spec(b) =~= lines_spec(b));
    } else {
        let ab = a + b;
        lemma_line_end_has_terminator(a, b);
        let e = line_end(a);
        assert(ab[e as int] == a[e as int]);
        if a[e as int] == 13 {
            assert(e + 1 < a.len());
            assert(ab[e + 1int] == a[e + 1int]);
        }
        assert(next_line_start(ab) == next_line_start(a));
        let n = next_line_start(a) as int;
        assert(ab.take(e as int) =~= a.take(e as int));
        assert(ab.skip(n) =~= a.skip(n) + b);
        if n < a.len() {
            assert(a.skip(n).last() == a.last());
        }
        lemma_lines_append(a.skip(n), b);
        assert(lines_spec(ab) =~= lines_spec(a) + lines_spec(b));
    }
}

proof fn lemma_lines_single(x: Seq<u8>)
    requires
        !has_terminator(x),
    ensures
        lines_spec(x.push(10)) == seq![x],
{
    let s = x.push(10);
    assert(s =~= x + seq![10u8]);
    lemma_line_end_append(x, seq![10u8]);
    assert(line_end(s) == x.len());
    assert(next_line_start(s) == s.len());
    assert(s.take(x.len() as int) =~= x);
    assert(s.skip(s.len() as int) =~= Seq::<u8>::empty());
    assert(lines_spec(s.skip(s.len() as int)).len() == 0);
    assert(lines_spec(s) == seq![s.take(x.len() as int)] + lines_spec(s.skip(s.len() as int)));
    assert(lines_spec(s) =~= seq![x]);
}

proof fn lemma_encode_append(a: Seq<char>, b: Seq<char>)
    ensures
        encode_utf8(a + b) == encode_utf8(a) + encode_utf8(b),
    decreases a.len(),
{
    if a.len() == 0 {
        assert(a + b =~= b);
        assert(encode_utf8(a) =~= Seq::<u8>::empty());
        assert(encode_utf8(a) + encode_utf8(b) =~= encode_utf8(b));
    } else {
        assert((a + b).drop_first() =~= a.drop_first() + b);
        assert((a + b)[0] == a[0]);
        lemma_encode_append(a.drop_first(), b);
        assert(encode_utf8(a + b) =~= encode_utf8(a) + encode_utf8(b));
    }
}

proof fn lemma_scalar_no_terminator(v: u32)
    requires
        v != 10,
        v != 13,
    ensures
        forall|i: int| 0 <= i < encode_scalar(v).len() ==> !is_terminator(#[trigger] encode_scalar(v)[i]),
{
    if has_width_1_encoding(v) {
        assert(v <= 0x7f);
        assert(((v & 0x7f) as u8) != 10u8 && ((v & 0x7f) as u8) != 13u8) by (bit_vector)
            requires v <= 0x7f, v != 10, v != 13;
    } else {
        assert((0xC0u8 | (((v >> 6u32) & 0x1Fu32) as u8)) >= 0x80u8) by (bit_vector);
        assert((0xE0u8 | (((v >> 12u32) & 0x0Fu32) as u8)) >= 0x80u8) by (bit_vector);
        assert((0xF0u8 | (((v >> 18u32) & 0x7u32) as u8)) >= 0x80u8) by (bit_vector);
        assert((0x80u8 | ((v & 0x3Fu32) as u8)) >= 0x80u8) by (bit_vector);
        assert((0x80u8 | (((v >> 6u32) & 0x3Fu32) as u8)) >= 0x80u8) by (bit_vector);
        assert((0x80u8 | (((v >> 12u32) & 0x3Fu32) as u8)) >= 0x80u8) by (bit_vector);
    }
}

proof fn lemma_encode_no_terminator(x: Seq<char>)
    requires
        !has_cr_or_lf(x),
    ensures
        !has_terminator(encode_utf8(x)),
    decreases x.len(),
{
    if x.len() > 0 {
        assert(!is_cr_or_lf(x[0]));
        vstd::utf8::char_u32_cast(x[0], x[0] as u32);
        assert(x[0] as u32 != 10 && x[0] as u32 != 13);
        lemma_scalar_no_terminator(x[0] as u32);
        assert(!has_cr_or_lf(x.drop_first())) by {
            if has_cr_or_lf(x.drop_first()) {
                let i = choose|i: int| 0 <= i < x.drop_first().len() && is_cr_or_lf(#[trigger] x.drop_first()[i]);
                assert(x[i + 1] == x.drop_first()[i]);
            }
        }
        lemma_encode_no_terminator(x.drop_first());
        let e0 = encode_scalar(x[0] as u32);
        let r = encode_utf8(x.drop_first());
        assert(encode_utf8(x) == e0 + r);
        if has_terminator(encode_utf8(x)) {
            let i = choose|i: int| 0 <= i < encode_utf8(x).len() && is_terminator(#[trigger] encode_utf8(x)[i]);
            if i < e0.len() {
                assert(encode_utf8(x)[i] == e0[i]);
            } else {
                assert(encode_utf8(x)[i] == r[i - e0.len()]);
            }
        }
    }
}

proof fn lemma_text_lines(ts: Seq<(Seq<char>, Seq<char>)>)
    requires
        forall|i: int| 0 <= i < ts.len() ==> round_trip_tag(#[trigger] ts[i]),
    ensures
        lines_spec(encode_utf8(tag_file_text(ts))) == ts.map_values(|t: (Seq<char>, Seq<char>)| encode_utf8(tag_line_text(t))),
        encode_utf8(tag_file_text(ts)).len() == 0 || encode_utf8(tag_file_text(ts)).last() == 10,
    decreases ts.len(),
{
    if ts.len() > 0 {
        let init = ts.drop_last();
        let t = ts.last();
        assert(round_trip_tag(ts[ts.len() - 1]));
        lemma_text_lines(init);
        lemma_tag_line_parts(t);
        let x = tag_line_text(t);
        let ex = encode_utf8(x);
        lemma_encode_no_terminator(x);
        assert(tag_file_text(ts) =~= tag_file_text(init) + (x + seq!['\n']));
        lemma_encode_append(tag_file_text(init), x + seq!['\n']);
        lemma_encode_append(x, seq!['\n']);
        assert(encode_utf8(seq!['\n']) =~= seq![10u8]) by {
            assert(seq!['\n'].drop_first() =~= Seq::<char>::empty());
            assert(('\n' as u32) == 10u32);
            assert(((10u32 & 0x7Fu32) as u8) == 10u8) by (bit_vector);
            assert(has_width_1_encoding(10u32));
            assert(encode_scalar(10u32) =~= seq![10u8]);
            let nl = seq!['\n'];
            assert(nl[0] as u32 == 10u32);
            assert(encode_utf8(nl.drop_first()) =~= Seq::<u8>::empty());
            assert(encode_utf8(nl) == encode_scalar(nl[0] as u32) + encode_utf8(nl.drop_first()));
        }
        assert(ex + seq![10u8] =~= ex.push(10));
        lemma_lines_append(encode_utf8(tag_file_text(init)), ex.push(10));
        lemma_lines_single(ex);
        assert(lines_spec(encode_utf8(tag_file_text(ts))) =~= ts.map_values(|t: (Seq<char>, Seq<char>)| encode_utf8(tag_line_text(t))));
    } else {
        assert(encode_utf8(tag_file_text(ts)) =~= Seq::<u8>::empty());
        assert(lines_spec(encode_utf8(tag_file_text(ts))) =~= ts.map_values(|t: (Seq<char>, Seq<char>)| encode_utf8(tag_line_text(t))));
    }
}

/// Writing valid tags whose labels hold no `:` and reading the written file (in UTF-8) back
/// gives the same tags, in the same order.
pub proof fn lemma_tag_file_round_trip(ts: Seq<(Seq<char>, Seq<char>)>)
    requires
        forall|i: int| 0 <= i < ts.len() ==> round_trip_tag(#[trigger] ts[i]),
    ensures
        tag_text_ok(encode_utf8(tag_file_text(ts))),
        parsed_tags(tag_lines(encode_utf8(tag_file_text(ts)))) == ts,
{
    lemma_text_lines(ts);
    let bs = lines_spec(encode_utf8(tag_file_text(ts)));
    let ls = decoded_lines(bs);
    assert forall|i: int| 0 <= i < ls.len() implies valid_utf8(#[trigger] bs[i]) && ls[i] == tag_line_text(ts[i]) && !is_continuation(ls[i]) && tag_line_ok(ls[i]) && split_tag_line(ls[i]) == Some(ts[i]) by {
        assert(round_trip_tag(ts[i]));
        encode_utf8_valid_utf8(tag_line_text(ts[i]));
        encode_utf8_decode_utf8(tag_line_text(ts[i]));
        lemma_tag_line_parts(ts[i]);
    }
    lemma_fold_plain(ls);
    assert(parsed_tags(tag_lines(encode_utf8(tag_file_text(ts)))) =~= ts);
}

/// The tags read from a valid tag file are written back to a file that reads as the same tags.
pub proof fn lemma_read_write_read(b: Seq<u8>)
    requires
        tag_text_ok(b),
    ensures
        parsed_tags(tag_lines(encode_utf8(tag_file_text(parsed_tags(tag_lines(b)))))) == parsed_tags(tag_lines(b)),
        tag_text_ok(encode_utf8(tag_file_text(parsed_tags(tag_lines(b))))),
{
    let ts = parsed_tags(tag_lines(b));
    assert forall|i: int| 0 <= i < ts.len() implies round_trip_tag(#[trigger] ts[i]) by {
        let l = tag_lines(b)[i];
        assert(tag_line_ok(l));
        lemma_index_of(l, ':');
        let c = index_of(l, ':');
        assert(ts[i].0 =~= l.take(c as int));
        if ts[i].0.contains(':') {
            let j = choose|j: int| 0 <= j < ts[i].0.len() && ts[i].0[j] == ':';
            assert(l[j] == ':');
        }
    }
    lemma_tag_file_round_trip(ts);
}

} // verus!
