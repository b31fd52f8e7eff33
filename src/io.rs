//! Line-oriented reading: physical lines ended by CR, LF or CRLF, and the logical tag lines
//! that continuation lines fold into.
use crate::error::Error;
use crate::text::push_char;
use vstd::prelude::*;
use vstd::utf8::{decode_utf8, valid_utf8};

verus! {

/// Relies on `String::from_utf8`: it succeeds exactly on valid UTF-8 and then holds the decoded
/// characters.
#[verifier::external_body]
pub(crate) fn bytes_to_string(bytes: Vec<u8>) -> (r: Result<String, Error>)
    ensures
        r is Ok <==> valid_utf8(bytes@),
        r matches Ok(s) ==> s@ == decode_utf8(bytes@),
        r matches Err(e) ==> e is InvalidString,
{
    String::from_utf8(bytes).map_err(|e| Error::InvalidString { details: e.to_string() })
}

/// CR or LF, the bytes that end a line.
pub open spec fn is_terminator(b: u8) -> bool {
    b == 13 || b == 10
}

/// The length of the first line: the index of the first CR or LF, or the whole length.
pub open spec fn line_end(s: Seq<u8>) -> nat
    decreases s.len(),
{
    if s.len() == 0 {
        0
    } else if is_terminator(s[0]) {
        0
    } else {
        1 + line_end(s.drop_first())
    }
}

/// Where the next line starts: after the terminator, which is CR, LF or CR followed by LF.
pub open spec fn next_line_start(s: Seq<u8>) -> nat {
    let e = line_end(s);
    if e >= s.len() {
        s.len()
    } else if s[e as int] == 13 && e + 1 < s.len() && s[e + 1int] == 10 {
        e + 2
    } else {
        e + 1
    }
}

proof fn lemma_line_end_bound(s: Seq<u8>)
    ensures
        line_end(s) <= s.len(),
        line_end(s) < s.len() ==> is_terminator(s[line_end(s) as int]),
        forall|i: int| 0 <= i < line_end(s) ==> !is_terminator(#[trigger] s[i]),
    decreases s.len(),
{
    if s.len() > 0 && !is_terminator(s[0]) {
        lemma_line_end_bound(s.drop_first());
        assert forall|i: int| 0 <= i < line_end(s) implies !is_terminator(#[trigger] s[i]) by {
            if i > 0 {
                assert(s[i] == s.drop_first()[i - 1]);
            }
        }
    }
}

/// The lines of a byte sequence, terminators stripped; a trailing empty region yields no line.
pub open spec fn lines_spec(s: Seq<u8>) -> Seq<Seq<u8>>
    decreases s.len(),
{
    if s.len() == 0 {
        Seq::empty()
    } else {
        let n = next_line_start(s);
        if 0 < n <= s.len() {
            seq![s.take(line_end(s) as int)] + lines_spec(s.skip(n as int))
        } else {
            Seq::empty()
        }
    }
}

/// Every line is valid UTF-8.
pub open spec fn all_valid(ls: Seq<Seq<u8>>) -> bool {
    forall|i: int| 0 <= i < ls.len() ==> valid_utf8(#[trigger] ls[i])
}

/// Line `j` is the first that is not valid UTF-8.
pub open spec fn first_invalid(ls: Seq<Seq<u8>>, j: int) -> bool {
    0 <= j < ls.len() && !valid_utf8(ls[j]) && all_valid(ls.take(j))
}

/// The logical lines that a tag-line reader returns before it meets the undecodable line `j`:
/// those of the lines before it, but for the last, which that line cuts short.
pub open spec fn lines_before_failure(ls: Seq<Seq<u8>>, j: int) -> Seq<Seq<char>> {
    let f = fold_tag_lines(decoded_lines(ls.take(j)));
    if f.len() == 0 {
        f
    } else {
        f.drop_last()
    }
}

/// The lines, decoded.
pub open spec fn decoded_lines(ls: Seq<Seq<u8>>) -> Seq<Seq<char>> {
    ls.map_values(|l: Seq<u8>| decode_utf8(l))
}

proof fn lemma_lines_len(s: Seq<u8>)
    ensures
        lines_spec(s).len() <= s.len(),
    decreases s.len(),
{
    if s.len() > 0 {
        lemma_next_line_start(s);
        lemma_lines_len(s.skip(next_line_start(s) as int));
    }
}

proof fn lemma_next_line_start(s: Seq<u8>)
    requires
        s.len() > 0,
    ensures
        line_end(s) <= next_line_start(s) <= s.len(),
        0 < next_line_start(s),
{
    lemma_line_end_bound(s);
}

/// Reads lines out of a byte sequence, one per call. Lines can be terminated by CR, LF, or
/// CRLF; each line is decoded as UTF-8 on its own.
pub struct LineReader {
    bytes: Vec<u8>,
    position: usize,
}

impl LineReader {
    pub closed spec fn wf(&self) -> bool {
        &&& self.position <= self.bytes@.len()
        &&& self.bytes@.len() <= usize::MAX
    }

    /// The lines that are still to come, as bytes.
    pub closed spec fn pending(&self) -> Seq<Seq<u8>> {
        lines_spec(self.bytes@.skip(self.position as int))
    }

    pub fn new(input: Vec<u8>) -> (r: Self)
        ensures
            r.wf(),
            r.pending() == lines_spec(input@),
            r.pending().len() <= usize::MAX,
    {
        let _ = input.len();
        proof {
            lemma_lines_len(input@);
        }
        let r = Self { bytes: input, position: 0 };
        assert(r.bytes@.skip(0) =~= r.bytes@);
        r
    }

    /// Returns the next line, decoded, or an error when the line is not valid UTF-8; `None`
    /// once the input is exhausted.
    pub fn next_line(&mut self) -> (r: Option<Result<String, Error>>)
        requires
            old(self).wf(),
        ensures
            final(self).wf(),
            old(self).pending().len() == 0 ==> r is None && final(self).pending().len() == 0,
            old(self).pending().len() > 0 ==> final(self).pending() == old(self).pending().drop_first(),
            old(self).pending().len() > 0 && valid_utf8(old(self).pending()[0]) ==> (r matches Some(Ok(s)) && s@ == decode_utf8(old(self).pending()[0])),
            old(self).pending().len() > 0 && !valid_utf8(old(self).pending()[0]) ==> (r matches Some(Err(e)) && e is InvalidString),
    {
        let n = self.bytes.len();
        let p = self.position;
        if p >= n {
            assert(self.bytes@.skip(p as int) =~= Seq::<u8>::empty());
            return None;
        }
        let ghost s = self.bytes@.skip(p as int);
        let mut line: Vec<u8> = Vec::new();
        let mut j: usize = p;
        while j < n && self.bytes[j] != 13 && self.bytes[j] != 10
            invariant
                p <= j <= n,
                n == self.bytes@.len(),
                s == self.bytes@.skip(p as int),
                line_end(s) == (j - p) + line_end(self.bytes@.skip(j as int)),
                line@ == self.bytes@.subrange(p as int, j as int),
            decreases n - j,
        {
            proof {
                assert(self.bytes@.skip(j as int).drop_first() =~= self.bytes@.skip(j + 1));
            }
            line.push(self.bytes[j]);
            j = j + 1;
            assert(line@ =~= self.bytes@.subrange(p as int, j as int));
        }
        proof {
            if j < n {
                assert(self.bytes@.skip(j as int)[0] == self.bytes@[j as int]);
            }
        }
        let next = if j >= n {
            n
        } else if self.bytes[j] == 13 && j + 1 < n && self.bytes[j + 1] == 10 {
            j + 2
        } else {
            j + 1
        };
        proof {
            lemma_next_line_start(s);
            assert(s.take(line_end(s) as int) =~= line@);
            assert(next_line_start(s) == next - p);
            assert(s.skip(next - p) =~= self.bytes@.skip(next as int));
        }
        self.position = next;
        Some(bytes_to_string(line))
    }
}

pub fn is_space_or_tab(c: char) -> (r: bool)
    ensures
        r == (c == ' ' || c == '\t'),
{
    c == ' ' || c == '\t'
}

/// A physical line that continues the previous tag line: it starts with SPACE or TAB.
pub open spec fn is_continuation(line: Seq<char>) -> bool {
    line.len() > 0 && (line[0] == ' ' || line[0] == '\t')
}

/// The line without its leading run of SPACE and TAB.
pub open spec fn strip_space_tab(s: Seq<char>) -> Seq<char>
    decreases s.len(),
{
    if s.len() > 0 && (s[0] == ' ' || s[0] == '\t') {
        strip_space_tab(s.drop_first())
    } else {
        s
    }
}

/// The logical tag lines: each continuation line is stripped of its leading SPACE/TAB run and
/// appended to the line before it, joined by one SPACE.
pub open spec fn fold_tag_lines(ls: Seq<Seq<char>>) -> Seq<Seq<char>>
    decreases ls.len(),
{
    if ls.len() == 0 {
        Seq::empty()
    } else {
        let f = fold_tag_lines(ls.drop_last());
        let l = ls.last();
        if f.len() > 0 && is_continuation(l) {
            f.update(f.len() - 1, f.last() + seq![' '] + strip_space_tab(l))
        } else {
            f.push(l)
        }
    }
}

/// The number of lines that start a tag: all but the continuation lines after the first line.
pub open spec fn count_tag_starts(ls: Seq<Seq<char>>) -> nat
    decreases ls.len(),
{
    if ls.len() == 0 {
        0
    } else if ls.len() > 1 && is_continuation(ls.last()) {
        count_tag_starts(ls.drop_last())
    } else {
        count_tag_starts(ls.drop_last()) + 1
    }
}

/// The tag-line reader yields one logical line for each physical line that is not a
/// continuation of an earlier one.
pub proof fn lemma_tag_line_count(ls: Seq<Seq<char>>)
    ensures
        fold_tag_lines(ls).len() == count_tag_starts(ls),
        ls.len() > 0 ==> fold_tag_lines(ls).len() > 0,
    decreases ls.len(),
{
    if ls.len() > 0 {
        lemma_tag_line_count(ls.drop_last());
    }
}

proof fn lemma_count_le(ls: Seq<Seq<char>>)
    ensures
        count_tag_starts(ls) <= ls.len(),
    decreases ls.len(),
{
    if ls.len() > 0 {
        lemma_count_le(ls.drop_last());
    }
}

/// Folding more lines only changes the last logical line of a prefix and adds new ones.
proof fn lemma_fold_stable(ls: Seq<Seq<char>>, k: int, m: int)
    requires
        0 <= k <= m <= ls.len(),
    ensures
        fold_tag_lines(ls.take(k)).len() <= fold_tag_lines(ls.take(m)).len(),
        forall|i: int| 0 <= i < fold_tag_lines(ls.take(k)).len() - 1 ==> #[trigger] fold_tag_lines(ls.take(m))[i] == fold_tag_lines(ls.take(k))[i],
        k < m ==> forall|i: int| 0 <= i < fold_tag_lines(ls.take(k)).len() ==> #[trigger] fold_tag_lines(ls.take(m))[i] == fold_tag_lines(ls.take(k))[i] || i == fold_tag_lines(ls.take(k)).len() - 1,
    decreases m - k,
{
    if k < m {
        lemma_fold_stable(ls, k, m - 1);
        lemma_fold_prefix_step(ls, m - 1);
    }
}

proof fn lemma_fold_prefix_step(ls: Seq<Seq<char>>, k: int)
    requires
        0 <= k < ls.len(),
    ensures
        fold_tag_lines(ls.take(k + 1)) == {
            let f = fold_tag_lines(ls.take(k));
            if f.len() > 0 && is_continuation(ls[k]) {
                f.update(f.len() - 1, f.last() + seq![' '] + strip_space_tab(ls[k]))
            } else {
                f.push(ls[k])
            }
        },
{
    assert(ls.take(k + 1).drop_last() =~= ls.take(k));
}

/// Reads logical BagIt tag lines. Physical lines end with CR, LF, or CRLF; a line that starts
/// with spaces or tabs belongs to the line before it. Connected lines are joined by stripping
/// the leading whitespace and inserting a single space.
pub struct TagLineReader {
    reader: LineReader,
    next: Option<String>,
    failed: bool,
    lines: Ghost<Seq<Seq<u8>>>,
    consumed: Ghost<int>,
    emitted: Ghost<Seq<Seq<char>>>,
}

impl TagLineReader {
    pub closed spec fn wf(&self) -> bool {
        &&& self.reader.wf()
        &&& 0 <= self.consumed@ <= self.lines@.len()
        &&& self.reader.pending() == self.lines@.skip(self.consumed@)
        &&& (!self.failed ==> all_valid(self.lines@.take(self.consumed@)))
        &&& (!self.failed ==> fold_tag_lines(decoded_lines(self.lines@.take(self.consumed@))) == self.emitted@ + match self.next {
            Some(t) => seq![t@],
            None => Seq::empty(),
        })
        &&& (self.next is None ==> self.consumed@ == 0 || self.consumed@ == self.lines@.len() || self.failed)
        &&& (self.failed ==> self.next is None)
        &&& self.lines@.len() <= usize::MAX
    }

    /// The physical lines of the whole input, as bytes.
    pub closed spec fn lines(&self) -> Seq<Seq<u8>> {
        self.lines@
    }

    /// The logical lines returned so far.
    pub closed spec fn emitted(&self) -> Seq<Seq<char>> {
        self.emitted@
    }

    /// A line that is not valid UTF-8 has been reported; nothing more is read.
    pub closed spec fn failed(&self) -> bool {
        self.failed
    }

    /// No more logical lines have been returned than there are physical lines.
    pub proof fn lemma_emitted_bound(&self)
        requires
            self.wf(),
            !self.failed(),
        ensures
            self.emitted().len() <= self.lines().len(),
            self.lines().len() <= usize::MAX,
    {
        let d = decoded_lines(self.lines@.take(self.consumed@));
        lemma_tag_line_count(d);
        lemma_count_le(d);
    }

    /// Where a line of the input is not UTF-8, what has been returned comes before it.
    pub proof fn lemma_emitted_before_failure(&self, j: int)
        requires
            self.wf(),
            !self.failed(),
            first_invalid(self.lines(), j),
        ensures
            self.emitted().len() <= lines_before_failure(self.lines(), j).len(),
    {
        let k = self.consumed@;
        if k > j {
            assert(self.lines@.take(k)[j] == self.lines@[j]);
        }
        assert(k <= j);
        let d = decoded_lines(self.lines@.take(j));
        assert(d.take(k) =~= decoded_lines(self.lines@.take(k)));
        assert(d.take(j) =~= d);
        lemma_fold_stable(d, k, j);
    }

    /// The logical lines returned so far are the first ones of the whole input.
    pub proof fn lemma_emitted_prefix(&self)
        requires
            self.wf(),
            !self.failed(),
        ensures
            self.emitted().len() <= fold_tag_lines(decoded_lines(self.lines())).len(),
            forall|i: int| 0 <= i < self.emitted().len() ==> #[trigger] self.emitted()[i] == fold_tag_lines(decoded_lines(self.lines()))[i],
    {
        let k = self.consumed@;
        let d = decoded_lines(self.lines@);
        assert forall|m: int| 0 <= m <= d.len() implies #[trigger] d.take(m) == decoded_lines(self.lines@.take(m)) by {
            assert(d.take(m) =~= decoded_lines(self.lines@.take(m)));
        }
        lemma_fold_stable(d, k, d.len() as int);
        assert(d.take(d.len() as int) =~= d);
        let f = fold_tag_lines(d.take(k));
        assert forall|i: int| 0 <= i < self.emitted().len() implies #[trigger] self.emitted()[i] == fold_tag_lines(d)[i] by {
            assert(f[i] == self.emitted@[i]);
            if self.next is None {
                if k == 0 {
                    assert(d.take(0) =~= Seq::<Seq<char>>::empty());
                }
            }
        }
    }

    pub fn new(input: Vec<u8>) -> (r: Self)
        ensures
            r.wf(),
            !r.failed(),
            r.lines() == lines_spec(input@),
            r.emitted().len() == 0,
    {
        let reader = LineReader::new(input);
        let ghost lines = reader.pending();
        let r = Self {
            reader,
            next: None,
            failed: false,
            lines: Ghost(lines),
            consumed: Ghost(0),
            emitted: Ghost(Seq::empty()),
        };
        assert(r.lines@.skip(0) =~= r.lines@);
        assert(r.lines@.take(0) =~= Seq::<Seq<u8>>::empty());
        assert(decoded_lines(r.lines@.take(0)) =~= Seq::<Seq<char>>::empty());
        assert(r.emitted@ + Seq::<Seq<char>>::empty() =~= Seq::<Seq<char>>::empty());
        r
    }

    /// Returns the next logical tag line, or `None` once the input is exhausted. A physical
    /// line that is not valid UTF-8 is reported as an error, after which nothing more is read.
    pub fn next_tag_line(&mut self) -> (r: Option<Result<String, Error>>)
        requires
            old(self).wf(),
        ensures
            final(self).wf(),
            final(self).lines() == old(self).lines(),
            old(self).failed() ==> r is None && final(self).failed(),
            r matches Some(Err(e)) ==> e is InvalidString && !all_valid(old(self).lines()) && final(self).failed(),
            r is Some && r->Some_0 is Err ==> exists|j: int| #[trigger] first_invalid(old(self).lines(), j) && final(self).emitted() == lines_before_failure(old(self).lines(), j),
            r is None && !old(self).failed() ==> all_valid(old(self).lines()) && final(self).emitted() == fold_tag_lines(decoded_lines(old(self).lines())),
            r is None ==> final(self).emitted() == old(self).emitted(),
            r is Some && r->Some_0 is Err ==> final(self).emitted() == old(self).emitted(),
            r matches Some(Ok(t)) ==> final(self).emitted() == old(self).emitted().push(t@) && !final(self).failed(),
    {
        if self.failed {
            return None;
        }
        let mut current = self.next.take();
        loop
            invariant
                self.reader.wf(),
                self.lines@ == old(self).lines@,
                self.emitted@ == old(self).emitted@,
                !self.failed,
                !old(self).failed,
                0 <= self.consumed@ <= self.lines@.len(),
                self.reader.pending() == self.lines@.skip(self.consumed@),
                all_valid(self.lines@.take(self.consumed@)),
                fold_tag_lines(decoded_lines(self.lines@.take(self.consumed@))) == self.emitted@ + match current {
                    Some(t) => seq![t@],
                    None => Seq::empty(),
                },
                self.next is None,
                current is None ==> self.consumed@ == 0 || self.consumed@ == self.lines@.len(),
                self.lines@.len() <= usize::MAX,
            decreases self.lines@.len() - self.consumed@,
        {
            let ghost k = self.consumed@;
            let ghost pend = self.reader.pending();
            match self.reader.next_line() {
                Some(Err(e)) => {
                    proof {
                        assert(pend[0] == self.lines@[k]);
                        assert(!valid_utf8(self.lines@[k]));
                        assert(first_invalid(self.lines@, k));
                        if current is None {
                            assert(self.lines@.take(k) =~= Seq::<Seq<u8>>::empty());
                            assert(decoded_lines(self.lines@.take(k)) =~= Seq::<Seq<char>>::empty());
                            assert(self.emitted@ + Seq::<Seq<char>>::empty() =~= self.emitted@);
                        } else {
                            assert((self.emitted@ + seq![current.unwrap()@]).drop_last() =~= self.emitted@);
                        }
                        assert(self.emitted@ == lines_before_failure(self.lines@, k));
                        assert(self.lines@.skip(k).drop_first() =~= self.lines@.skip(k + 1));
                        self.consumed@ = k + 1;
                    }
                    self.failed = true;
                    proof {
                        assert(first_invalid(old(self).lines(), k));
                        assert(self.emitted() == lines_before_failure(old(self).lines(), k));
                    }
                    return Some(Err(e));
                },
                None => {
                    proof {
                        assert(self.lines@.skip(k).len() == 0);
                        assert(self.lines@.take(k) =~= self.lines@);
                    }
                    match current {
                        Some(t) => {
                            proof {
                                assert(self.emitted@ + seq![t@] =~= self.emitted@.push(t@));
                                self.emitted@ = self.emitted@.push(t@);
                                assert(self.lines@.take(self.consumed@) =~= self.lines@);
                                assert(self.emitted@ + Seq::<Seq<char>>::empty() =~= self.emitted@);
                                assert(self.reader.pending() =~= self.lines@.skip(self.consumed@));
                            }
                            return Some(Ok(t));
                        },
                        None => {
                            assert(self.emitted@ + Seq::<Seq<char>>::empty() =~= self.emitted@);
                            assert(self.reader.pending() =~= self.lines@.skip(self.consumed@));
                            return None;
                        },
                    }
                },
                Some(Ok(read)) => {
                    proof {
                        assert(pend[0] == self.lines@[k]);
                        assert(self.lines@.skip(k).drop_first() =~= self.lines@.skip(k + 1));
                        assert(self.lines@.take(k + 1) =~= self.lines@.take(k).push(self.lines@[k]));
                        assert(decoded_lines(self.lines@.take(k + 1)) =~= decoded_lines(self.lines@.take(k)).push(read@));
                        lemma_fold_prefix_step(decoded_lines(self.lines@.take(k + 1)), k);
                        assert(decoded_lines(self.lines@.take(k + 1)).take(k) =~= decoded_lines(self.lines@.take(k)));
                        assert(decoded_lines(self.lines@.take(k + 1)).take(k + 1) =~= decoded_lines(self.lines@.take(k + 1)));
                        self.consumed@ = k + 1;
                    }
                    let is_cont = read.as_str().unicode_len() > 0 && is_space_or_tab(
                        read.as_str().get_char(0),
                    );
                    match current {
                        Some(mut cur) => {
                            let ghost old_cur = cur@;
                            if is_cont {
                                push_char(&mut cur, ' ');
                                append_stripped(&mut cur, read.as_str());
                                current = Some(cur);
                                proof {
                                    let f = fold_tag_lines(decoded_lines(self.lines@.take(k)));
                                    assert(f =~= self.emitted@ + seq![old_cur]);
                                    assert(f.last() == old_cur);
                                    let g = f.update(f.len() - 1, f.last() + seq![' '] + strip_space_tab(read@));
                                    assert(current.unwrap()@ == old_cur + seq![' '] + strip_space_tab(read@));
                                    assert(decoded_lines(self.lines@.take(k + 1))[k] == read@);
                                    assert(fold_tag_lines(decoded_lines(self.lines@.take(k + 1))) == g);
                                    assert(g =~= self.emitted@ + seq![current.unwrap()@]);
                                }
                                assert(fold_tag_lines(decoded_lines(self.lines@.take(self.consumed@))) =~= self.emitted@ + seq![current.unwrap()@]);
                            } else {
                                self.next = Some(read);
                                proof {
                                    self.emitted@ = self.emitted@.push(cur@);
                                    assert(fold_tag_lines(decoded_lines(self.lines@.take(self.consumed@))) =~= self.emitted@ + seq![self.next.unwrap()@]);
                                }
                                return Some(Ok(cur));
                            }
                        },
                        None => {
                            proof {
                                assert(k == 0);
                                assert(decoded_lines(self.lines@.take(0)) =~= Seq::<Seq<char>>::empty());
                            }
                            assert(fold_tag_lines(decoded_lines(self.lines@.take(self.consumed@))) =~= self.emitted@ + seq![read@]);
                            current = Some(read);
                        },
                    }
                },
            }
        }
    }
}

/// Appends `s` without its leading run of SPACE and TAB.
fn append_stripped(out: &mut String, s: &str)
    ensures
        final(out)@ == old(out)@ + strip_space_tab(s@),
{
    let n = s.unicode_len();
    let mut i: usize = 0;
    assert(s@.skip(0) =~= s@);
    while i < n && is_space_or_tab(s.get_char(i))
        invariant
            i <= n,
            n == s@.len(),
            strip_space_tab(s@) == strip_space_tab(s@.skip(i as int)),
        decreases n - i,
    {
        proof {
            assert(s@.skip(i as int).drop_first() =~= s@.skip(i + 1));
        }
        i = i + 1;
    }
    proof {
        assert(strip_space_tab(s@.skip(i as int)) == s@.skip(i as int));
    }
    let ghost start = out@;
    while i < n
        invariant
            i <= n,
            n == s@.len(),
            out@ + s@.skip(i as int) == start + strip_space_tab(s@),
        decreases n - i,
    {
        push_char(out, s.get_char(i));
        assert(out@ + s@.skip(i + 1) =~= start + strip_space_tab(s@));
        i = i + 1;
    }
    assert(s@.skip(i as int) =~= Seq::<char>::empty());
    assert(out@ =~= start + strip_space_tab(s@));
}

} // verus!
