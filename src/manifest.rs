//! Manifests: which files they cover, how their lines are written, and how their names are
//! recognised.
use crate::consts::{MANIFEST_SUFFIX, PAYLOAD_MANIFEST_PATTERN, PAYLOAD_MANIFEST_PREFIX, TAG_MANIFEST_PATTERN, TAG_MANIFEST_PREFIX};
use crate::digest::{digests_unique, algorithm_name, algorithm_rank, algorithms_in_order, in_order, sorted_unique, DigestAlgorithm};
use crate::encoding::{decode_spec, encode_spec, is_well_encoded, lemma_percent_round_trip, percent_decode, percent_encode, well_encoded};
use crate::error::Error;
use crate::io::{all_valid, lines_spec, LineReader};
use vstd::utf8::{decode_utf8, valid_utf8};
use crate::order::{entry_le, entry_order, lemma_entry_le_total, lemma_entry_le_total_ordering, lemma_entry_le_transitive, lemma_text_le_antisymmetric, text_le, text_le_exec};
use crate::text::{chars_of, decimal, eq_ignore_ascii_case_spec, push_char, push_decimal};
use vstd::prelude::*;
use vstd::relations::sorted_by;
use vstd::seq_lib::{lemma_sorted_unique, to_multiset_insert, group_to_multiset_ensures};

verus! {

/// A payload or tag file as the walk saw it: its path relative to the bag root (or to the
/// payload directory, before the `data/` prefix is added), its size, and its digests.
#[derive(Debug)]
pub struct FileMeta {
    pub path: String,
    pub size_bytes: u64,
    pub digests: Vec<(DigestAlgorithm, String)>,
}

/// The first digest of the algorithm in the list.
pub open spec fn find_digest(ds: Seq<(DigestAlgorithm, String)>, alg: DigestAlgorithm) -> Option<Seq<char>>
    decreases ds.len(),
{
    if ds.len() == 0 {
        None
    } else if ds[0].0 == alg {
        Some(ds[0].1@)
    } else {
        find_digest(ds.drop_first(), alg)
    }
}

/// The entry that a file contributes to the manifest of an algorithm: its percent-encoded path
/// and its digest.
pub open spec fn manifest_entry(m: FileMeta, alg: DigestAlgorithm) -> (Seq<char>, Seq<char>) {
    (encode_spec(m.path@), find_digest(m.digests@, alg).unwrap())
}

pub open spec fn manifest_entries(ms: Seq<FileMeta>, alg: DigestAlgorithm) -> Seq<(Seq<char>, Seq<char>)> {
    ms.map_values(|m: FileMeta| manifest_entry(m, alg))
}

/// One manifest line: `DIGEST "  " ENCODED_PATH LF`.
pub open spec fn manifest_line(e: (Seq<char>, Seq<char>)) -> Seq<char> {
    e.1 + seq![' ', ' '] + e.0 + seq!['\n']
}

pub open spec fn manifest_text(es: Seq<(Seq<char>, Seq<char>)>) -> Seq<char>
    decreases es.len(),
{
    if es.len() == 0 {
        Seq::empty()
    } else {
        manifest_text(es.drop_last()) + manifest_line(es.last())
    }
}

/// Every file has a digest of the algorithm.
pub open spec fn all_digested(ms: Seq<FileMeta>, alg: DigestAlgorithm) -> bool {
    forall|i: int| 0 <= i < ms.len() ==> (#[trigger] find_digest(ms[i].digests@, alg)) is Some
}

impl FileMeta {
    /// Each algorithm has at most one digest, as in a map from algorithm to digest.
    pub open spec fn wf(&self) -> bool {
        digests_unique(self.digests@)
    }

    pub fn new(path: String, size_bytes: u64, digests: Vec<(DigestAlgorithm, String)>) -> (r: Self)
        ensures
            r.wf() == digests_unique(digests@),
            r.path@ == path@,
            r.size_bytes == size_bytes,
            r.digests@ == digests@,
    {
        FileMeta { path, size_bytes, digests }
    }

    /// The digest of the algorithm, if the file has one.
    pub fn digest(&self, alg: DigestAlgorithm) -> (r: Option<&String>)
        ensures
            r matches Some(d) ==> find_digest(self.digests@, alg) == Some(d@),
            r is None ==> find_digest(self.digests@, alg) is None,
    {
        let mut i: usize = 0;
        assert(self.digests@.skip(0) =~= self.digests@);
        while i < self.digests.len()
            invariant
                i <= self.digests@.len(),
                find_digest(self.digests@, alg) == find_digest(self.digests@.skip(i as int), alg),
            decreases self.digests@.len() - i,
        {
            proof {
                assert(self.digests@.skip(i as int).drop_first() =~= self.digests@.skip(i + 1));
            }
            if self.digests[i].0 == alg {
                return Some(&self.digests[i].1);
            }
            i = i + 1;
        }
        None
    }
}

/// Inserts an entry into a sorted list of entries after every entry that is not greater.
fn insert_sorted(sorted: &mut Vec<(Vec<char>, Vec<char>)>, es: Ghost<Seq<(Seq<char>, Seq<char>)>>, entry: (Vec<char>, Vec<char>)) -> (r: Ghost<Seq<(Seq<char>, Seq<char>)>>)
    requires
        old(sorted)@.len() == es@.len(),
        forall|k: int| 0 <= k < es@.len() ==> (#[trigger] old(sorted)@[k]).0@ == es@[k].0 && old(sorted)@[k].1@ == es@[k].1,
        sorted_by(es@, entry_order()),
    ensures
        final(sorted)@.len() == r@.len(),
        forall|k: int| 0 <= k < r@.len() ==> (#[trigger] final(sorted)@[k]).0@ == r@[k].0 && final(sorted)@[k].1@ == r@[k].1,
        sorted_by(r@, entry_order()),
        r@.to_multiset() == es@.to_multiset().insert((entry.0@, entry.1@)),
{
    proof {
        lemma_entry_le_total_ordering();
    }
    let ghost x = (entry.0@, entry.1@);
    let mut p: usize = sorted.len();
    while p > 0 && !entry_le_exec(&sorted[p - 1], &entry)
        invariant
            p <= sorted@.len(),
            sorted@ == old(sorted)@,
            sorted@.len() == es@.len(),
            forall|k: int| 0 <= k < es@.len() ==> (#[trigger] sorted@[k]).0@ == es@[k].0 && sorted@[k].1@ == es@[k].1,
            forall|k: int| p <= k < es@.len() ==> !entry_le(#[trigger] es@[k], x),
            x == (entry.0@, entry.1@),
        decreases p,
    {
        p = p - 1;
    }
    let ghost n = es@.insert(p as int, x);
    proof {
        let le = entry_order();
        assert forall|i: int, j: int| 0 <= i < j < n.len() implies #[trigger] le(n[i], n[j]) by {
            if j < p {
                assert(n[i] == es@[i] && n[j] == es@[j]);
                assert(le(es@[i], es@[j]));
            } else if j == p {
                assert(n[j] == x);
                assert(n[i] == es@[i]);
                assert(entry_le(es@[p - 1], x));
                if i < p - 1 {
                    assert(le(es@[i], es@[p - 1]));
                    lemma_entry_le_transitive(es@[i], es@[p - 1], x);
                }
            } else if i == p {
                assert(n[i] == x);
                assert(n[j] == es@[j - 1]);
                assert(!entry_le(es@[p as int], x));
                lemma_entry_le_total(es@[p as int], x);
                if j - 1 > p {
                    assert(le(es@[p as int], es@[j - 1]));
                    lemma_entry_le_transitive(x, es@[p as int], es@[j - 1]);
                }
            } else if i < p {
                assert(n[i] == es@[i] && n[j] == es@[j - 1]);
                assert(le(es@[i], es@[j - 1]));
            } else {
                assert(n[i] == es@[i - 1] && n[j] == es@[j - 1]);
                assert(le(es@[i - 1], es@[j - 1]));
            }
        }
        to_multiset_insert(es@, p as int, x);
    }
    sorted.insert(p, entry);
    assert forall|k: int| 0 <= k < n.len() implies (#[trigger] sorted@[k]).0@ == n[k].0 && sorted@[k].1@ == n[k].1 by {
        if k < p {
        } else if k == p {
        } else {
            assert(sorted@[k] == old(sorted)@[k - 1]);
        }
    }
    Ghost(n)
}

fn entry_le_exec(a: &(Vec<char>, Vec<char>), b: &(Vec<char>, Vec<char>)) -> (r: bool)
    ensures
        r == entry_le((a.0@, a.1@), (b.0@, b.1@)),
{
    let same_path = text_le_exec(&a.0, &b.0) && text_le_exec(&b.0, &a.0);
    proof {
        crate::order::lemma_text_le_reflexive(a.0@);
        if text_le(a.0@, b.0@) && text_le(b.0@, a.0@) {
            lemma_text_le_antisymmetric(a.0@, b.0@);
        }
    }
    if same_path {
        text_le_exec(&a.1, &b.1)
    } else {
        text_le_exec(&a.0, &b.0)
    }
}

/// The entries of the manifest of an algorithm, in the order in which they are written.
pub open spec fn sorted_entries(ms: Seq<FileMeta>, alg: DigestAlgorithm) -> Seq<(Seq<char>, Seq<char>)> {
    manifest_entries(ms, alg).sort_by(entry_order())
}

/// The contents of the manifest of an algorithm over the given files: one line per file,
/// sorted by percent-encoded path (and then by digest), so that the same files always give the
/// same bytes.
pub fn manifest_contents(algorithm: DigestAlgorithm, file_meta: &Vec<FileMeta>) -> (r: String)
    requires
        all_digested(file_meta@, algorithm),
    ensures
        r@ == manifest_text(sorted_entries(file_meta@, algorithm)),
{
    broadcast use group_to_multiset_ensures;

    let ghost all = manifest_entries(file_meta@, algorithm);
    let mut sorted: Vec<(Vec<char>, Vec<char>)> = Vec::new();
    let mut es: Ghost<Seq<(Seq<char>, Seq<char>)>> = Ghost(Seq::empty());
    let mut i: usize = 0;
    assert(all.take(0) =~= Seq::<(Seq<char>, Seq<char>)>::empty());
    while i < file_meta.len()
        invariant
            i <= file_meta@.len(),
            all == manifest_entries(file_meta@, algorithm),
            all_digested(file_meta@, algorithm),
            sorted@.len() == es@.len(),
            forall|k: int| 0 <= k < es@.len() ==> (#[trigger] sorted@[k]).0@ == es@[k].0 && sorted@[k].1@ == es@[k].1,
            sorted_by(es@, entry_order()),
            es@.to_multiset() == all.take(i as int).to_multiset(),
        decreases file_meta@.len() - i,
    {
        let m = &file_meta[i];
        let encoded = percent_encode(m.path.as_str());
        assert(find_digest(file_meta@[i as int].digests@, algorithm) is Some);
        let digest = match m.digest(algorithm) {
            Some(d) => chars_of(d.as_str()),
            None => Vec::new(),
        };
        let entry = (chars_of(encoded.as_str()), digest);
        assert((entry.0@, entry.1@) == all[i as int]);
        es = insert_sorted(&mut sorted, es, entry);
        proof {
            assert(all.take(i + 1) =~= all.take(i as int).push(all[i as int]));
            all.take(i as int).to_multiset_ensures();
        }
        i = i + 1;
    }
    proof {
        assert(all.take(i as int) =~= all);
        lemma_entry_le_total_ordering();
        all.lemma_sort_by_ensures(entry_order());
        lemma_sorted_unique(es@, all.sort_by(entry_order()), entry_order());
    }
    let mut out = String::new();
    let mut k: usize = 0;
    assert(es@.take(0) =~= Seq::<(Seq<char>, Seq<char>)>::empty());
    while k < sorted.len()
        invariant
            k <= sorted@.len(),
            sorted@.len() == es@.len(),
            forall|j: int| 0 <= j < es@.len() ==> (#[trigger] sorted@[j]).0@ == es@[j].0 && sorted@[j].1@ == es@[j].1,
            out@ == manifest_text(es@.take(k as int)),
        decreases sorted@.len() - k,
    {
        let ghost before = out@;
        push_chars(&mut out, &sorted[k].1);
        push_char(&mut out, ' ');
        push_char(&mut out, ' ');
        push_chars(&mut out, &sorted[k].0);
        push_char(&mut out, '\n');
        proof {
            assert(es@.take(k + 1).drop_last() =~= es@.take(k as int));
            assert(out@ =~= before + manifest_line(es@[k as int]));
        }
        k = k + 1;
    }
    assert(es@.take(k as int) =~= es@);
    out
}

fn push_chars(out: &mut String, cs: &Vec<char>)
    ensures
        final(out)@ == old(out)@ + cs@,
{
    let ghost start = out@;
    let mut i: usize = 0;
    while i < cs.len()
        invariant
            i <= cs@.len(),
            out@ == start + cs@.take(i as int),
        decreases cs@.len() - i,
    {
        push_char(out, cs[i]);
        i = i + 1;
        assert(out@ =~= start + cs@.take(i as int));
    }
    assert(cs@.take(i as int) =~= cs@);
}

/// Manifests depend only on which entries the files give, not on the order in which the files
/// were walked: two runs over the same files write the same manifest bytes.
pub proof fn lemma_manifest_deterministic(a: Seq<FileMeta>, b: Seq<FileMeta>, alg: DigestAlgorithm)
    requires
        manifest_entries(a, alg).to_multiset() == manifest_entries(b, alg).to_multiset(),
    ensures
        manifest_text(sorted_entries(a, alg)) == manifest_text(sorted_entries(b, alg)),
{
    lemma_entry_le_total_ordering();
    manifest_entries(a, alg).lemma_sort_by_ensures(entry_order());
    manifest_entries(b, alg).lemma_sort_by_ensures(entry_order());
    lemma_sorted_unique(sorted_entries(a, alg), sorted_entries(b, alg), entry_order());
}

/// The number of octets of the files.
pub open spec fn total_size(ms: Seq<FileMeta>) -> nat
    decreases ms.len(),
{
    if ms.len() == 0 {
        0
    } else {
        total_size(ms.drop_last()) + ms.last().size_bytes as nat
    }
}

/// `Payload-Oxum`: `OCTETSUM "." FILECOUNT`.
pub open spec fn oxum_text(ms: Seq<FileMeta>) -> Seq<char> {
    decimal(total_size(ms)) + seq!['.'] + decimal(ms.len())
}

/// The value of `Payload-Oxum` for the payload files.
pub fn build_payload_oxum(file_meta: &Vec<FileMeta>) -> (r: String)
    ensures
        r@ == oxum_text(file_meta@),
{
    let mut sum: u128 = 0;
    let mut i: usize = 0;
    let _ = file_meta.len();
    assert(file_meta@.take(0) =~= Seq::<FileMeta>::empty());
    while i < file_meta.len()
        invariant
            i <= file_meta@.len(),
            sum == total_size(file_meta@.take(i as int)),
            sum <= i * 0xffff_ffff_ffff_ffffu128,
            file_meta@.len() <= usize::MAX,
        decreases file_meta@.len() - i,
    {
        proof {
            assert(file_meta@.take(i + 1).drop_last() =~= file_meta@.take(i as int));
            assert(i * 0xffff_ffff_ffff_ffffu128 + 0xffff_ffff_ffff_ffffu128 == (i + 1) * 0xffff_ffff_ffff_ffffu128) by (nonlinear_arith);
            assert((i + 1) * 0xffff_ffff_ffff_ffffu128 <= 0x1_0000_0000_0000_0000u128 * 0xffff_ffff_ffff_ffffu128) by (nonlinear_arith)
                requires i < 0x1_0000_0000_0000_0000u128;
        }
        sum = sum + file_meta[i].size_bytes as u128;
        i = i + 1;
    }
    assert(file_meta@.take(i as int) =~= file_meta@);
    let mut out = String::new();
    push_decimal(&mut out, sum);
    push_char(&mut out, '.');
    push_decimal(&mut out, i as u128);
    out
}

pub open spec fn is_ascii_alnum(c: char) -> bool {
    ('0' <= c && c <= '9') || ('A' <= c && c <= 'Z') || ('a' <= c && c <= 'z')
}

/// The algorithm token of a manifest file name `PREFIX "-" TOKEN ".txt"`, where the token is one
/// or more ASCII letters and digits, or `None` when the name has another shape.
pub open spec fn manifest_token(prefix: Seq<char>, name: Seq<char>) -> Option<Seq<char>> {
    let k = prefix.len() + 1;
    if name.len() > k + 4 && name.take(prefix.len() as int) == prefix && name[prefix.len() as int] == '-'
        && name.skip(name.len() - 4) == ".txt"@ && (forall|i: int| k <= i < name.len() - 4 ==> is_ascii_alnum(#[trigger] name[i])) {
        Some(name.subrange(k as int, name.len() - 4))
    } else {
        None
    }
}

pub open spec fn string_opt_view(o: Option<String>) -> Option<Seq<char>> {
    match o {
        Some(s) => Some(s@),
        None => None,
    }
}

/// Relies on `regex::Regex::new` and `Regex::captures`: both manifest patterns compile; each is
/// anchored at both ends, matches its prefix, `-` and `.txt` literally, reads `[[:alnum:]]` as
/// the ASCII class `[0-9A-Za-z]`, and captures the run between them as its first group.
#[verifier::external_body]
fn capture_manifest_token(pattern: &str, name: &str) -> (r: Option<String>)
    requires
        pattern@ == PAYLOAD_MANIFEST_PATTERN@ || pattern@ == TAG_MANIFEST_PATTERN@,
    ensures
        pattern@ == PAYLOAD_MANIFEST_PATTERN@ ==> string_opt_view(r) == manifest_token(PAYLOAD_MANIFEST_PREFIX@, name@),
        pattern@ == TAG_MANIFEST_PATTERN@ ==> string_opt_view(r) == manifest_token(TAG_MANIFEST_PREFIX@, name@),
{
    let matcher = regex::Regex::new(pattern).unwrap();
    match matcher.captures(name) {
        Some(captures) => captures.get(1).map(|m| m.as_str().to_owned()),
        None => None,
    }
}

/// The algorithm token of a payload manifest's file name, `manifest-TOKEN.txt`.
pub fn payload_manifest_token(name: &str) -> (r: Option<String>)
    ensures
        string_opt_view(r) == manifest_token(PAYLOAD_MANIFEST_PREFIX@, name@),
{
    capture_manifest_token(PAYLOAD_MANIFEST_PATTERN, name)
}

/// Tests whether a file name is that of a tag manifest, `tagmanifest-TOKEN.txt`.
pub fn is_tag_manifest(name: &str) -> (r: bool)
    ensures
        r == manifest_token(TAG_MANIFEST_PREFIX@, name@) is Some,
{
    capture_manifest_token(TAG_MANIFEST_PATTERN, name).is_some()
}

/// Tests whether a file name is that of a payload manifest, `manifest-TOKEN.txt`.
pub fn is_payload_manifest(name: &str) -> (r: bool)
    ensures
        r == manifest_token(PAYLOAD_MANIFEST_PREFIX@, name@) is Some,
{
    payload_manifest_token(name).is_some()
}

/// The name of the manifest of an algorithm: `PREFIX "-" NAME ".txt"`.
pub open spec fn manifest_name(prefix: Seq<char>, a: DigestAlgorithm) -> Seq<char> {
    prefix + seq!['-'] + algorithm_name(a) + MANIFEST_SUFFIX@
}

/// The file name of the manifest of an algorithm, for a prefix `manifest` or `tagmanifest`.
pub fn manifest_file_name(prefix: &str, algorithm: DigestAlgorithm) -> (r: String)
    ensures
        r@ == manifest_name(prefix@, algorithm),
{
    let mut out = prefix.to_owned();
    push_char(&mut out, '-');
    out.append(algorithm.name());
    out.append(MANIFEST_SUFFIX);
    out
}

/// The algorithm that a token names, ASCII case aside.
pub open spec fn token_names(t: Seq<char>, a: DigestAlgorithm) -> bool {
    eq_ignore_ascii_case_spec(t, algorithm_name(a))
}

/// The file name is that of a payload manifest of the algorithm.
pub open spec fn name_detects(n: Seq<char>, a: DigestAlgorithm) -> bool {
    manifest_token(PAYLOAD_MANIFEST_PREFIX@, n) matches Some(t) && token_names(t, a)
}

/// The algorithms whose payload manifests the file names hold.
pub open spec fn detected_set(names: Seq<Seq<char>>) -> Set<DigestAlgorithm> {
    Set::new(|a: DigestAlgorithm| exists|i: int| 0 <= i < names.len() && #[trigger] name_detects(names[i], a))
}

pub open spec fn string_views(v: Seq<String>) -> Seq<Seq<char>> {
    v.map_values(|s: String| s@)
}

/// The algorithms of the payload manifests among the file names of a bag root, each once and
/// in order. Names whose token names no known algorithm are passed over.
pub fn detect_digest_algorithms(file_names: &Vec<String>) -> (r: Vec<DigestAlgorithm>)
    ensures
        r@ == in_order(detected_set(string_views(file_names@))),
        sorted_unique(r@),
{
    let ghost names = string_views(file_names@);
    let mut flags = [false; 6];
    let mut i: usize = 0;
    while i < file_names.len()
        invariant
            i <= file_names@.len(),
            names == string_views(file_names@),
            forall|a: DigestAlgorithm| flags@[algorithm_rank(a) as int] == exists|j: int| 0 <= j < i && #[trigger] name_detects(names[j], a),
        decreases file_names@.len() - i,
    {
        let token = payload_manifest_token(file_names[i].as_str());
        assert(names[i as int] == file_names@[i as int]@);
        match token {
            Some(t) => {
                match DigestAlgorithm::from_name(t.as_str()) {
                    Some(a) => {
                        let k = crate::digest::algorithm_index(a);
                        let ghost old_flags = flags@;
                        flags[k] = true;
                        proof {
                            assert forall|b: DigestAlgorithm| flags@[algorithm_rank(b) as int] == exists|j: int| 0 <= j < i + 1 && #[trigger] name_detects(names[j], b) by {
                                lemma_token_names_unique(t@, a, b);
                                assert(name_detects(names[i as int], b) == (a == b));
                                assert(flags@[algorithm_rank(b) as int] == (algorithm_rank(b) == k || old_flags[algorithm_rank(b) as int]));
                                assert((algorithm_rank(b) == algorithm_rank(a)) == (a == b));
                                if a == b {
                                    assert(name_detects(names[i as int], b));
                                } else if exists|j: int| 0 <= j < i + 1 && #[trigger] name_detects(names[j], b) {
                                    let j = choose|j: int| 0 <= j < i + 1 && #[trigger] name_detects(names[j], b);
                                    assert(j < i);
                                }
                            }
                        }
                    },
                    None => {
                        assert forall|b: DigestAlgorithm| flags@[algorithm_rank(b) as int] == exists|j: int| 0 <= j < i + 1 && #[trigger] name_detects(names[j], b) by {
                            assert(!token_names(t@, b));
                            assert(!name_detects(names[i as int], b));
                            if exists|j: int| 0 <= j < i + 1 && #[trigger] name_detects(names[j], b) {
                                let j = choose|j: int| 0 <= j < i + 1 && #[trigger] name_detects(names[j], b);
                                assert(j < i);
                            }
                        }
                    },
                }
            },
            None => {
                assert forall|b: DigestAlgorithm| flags@[algorithm_rank(b) as int] == exists|j: int| 0 <= j < i + 1 && #[trigger] name_detects(names[j], b) by {
                    assert(!name_detects(names[i as int], b));
                    if exists|j: int| 0 <= j < i + 1 && #[trigger] name_detects(names[j], b) {
                        let j = choose|j: int| 0 <= j < i + 1 && #[trigger] name_detects(names[j], b);
                        assert(j < i);
                    }
                }
            },
        }
        i = i + 1;
    }
    let r = algorithms_in_order(&flags);
    assert(Set::new(|a: DigestAlgorithm| flags@[algorithm_rank(a) as int]) =~= detected_set(names));
    r
}

pub proof fn lemma_token_names_unique(t: Seq<char>, a: DigestAlgorithm, b: DigestAlgorithm)
    requires
        token_names(t, a),
    ensures
        token_names(t, b) <==> a == b,
{
    reveal_strlit("md5");
    reveal_strlit("sha1");
    reveal_strlit("sha256");
    reveal_strlit("sha512");
    reveal_strlit("blake2b256");
    reveal_strlit("blake2b512");
    if a != b && token_names(t, b) {
        assert(algorithm_name(a).len() == algorithm_name(b).len());
        if algorithm_name(a).len() == 6 {
            assert(!crate::text::char_eq_ignore_ascii_case(t[3], algorithm_name(a)[3]) || !crate::text::char_eq_ignore_ascii_case(t[3], algorithm_name(b)[3]));
        } else if algorithm_name(a).len() == 10 {
            assert(!crate::text::char_eq_ignore_ascii_case(t[7], algorithm_name(a)[7]) || !crate::text::char_eq_ignore_ascii_case(t[7], algorithm_name(b)[7]));
        }
    }
}

/// The token of a payload manifest name that names no known algorithm.
pub open spec fn unknown_token(n: Seq<char>) -> Option<Seq<char>> {
    match manifest_token(PAYLOAD_MANIFEST_PREFIX@, n) {
        Some(t) => if forall|a: DigestAlgorithm| !token_names(t, a) {
            Some(t)
        } else {
            None
        },
        None => None,
    }
}

/// The tokens of payload manifest names that name no known algorithm, in order.
pub open spec fn unknown_tokens(names: Seq<Seq<char>>) -> Seq<Seq<char>>
    decreases names.len(),
{
    if names.len() == 0 {
        Seq::empty()
    } else {
        match unknown_token(names.last()) {
            Some(t) => unknown_tokens(names.drop_last()).push(t),
            None => unknown_tokens(names.drop_last()),
        }
    }
}

/// The tokens of payload manifest names that name no known algorithm, so that they can be
/// reported.
pub fn unknown_manifest_tokens(file_names: &Vec<String>) -> (r: Vec<String>)
    ensures
        string_views(r@) == unknown_tokens(string_views(file_names@)),
{
    let ghost names = string_views(file_names@);
    let mut out: Vec<String> = Vec::new();
    let mut i: usize = 0;
    assert(names.take(0) =~= Seq::<Seq<char>>::empty());
    assert(string_views(out@) =~= Seq::<Seq<char>>::empty());
    while i < file_names.len()
        invariant
            i <= file_names@.len(),
            names == string_views(file_names@),
            string_views(out@) == unknown_tokens(names.take(i as int)),
        decreases file_names@.len() - i,
    {
        proof {
            assert(names.take(i + 1).drop_last() =~= names.take(i as int));
            assert(names[i as int] == file_names@[i as int]@);
        }
        match payload_manifest_token(file_names[i].as_str()) {
            Some(t) => {
                let known = DigestAlgorithm::from_name(t.as_str());
                match known {
                    None => {
                        out.push(t);
                        assert(string_views(out@) =~= unknown_tokens(names.take(i + 1)));
                    },
                    Some(a) => {
                        assert(token_names(t@, a));
                        assert(unknown_token(names[i as int]) is None);
                    },
                }
            },
            None => {},
        }
        i = i + 1;
    }
    assert(names.take(i as int) =~= names);
    out
}

/// Prefixes the path of every file with `data/`.
pub fn add_data_prefix(file_meta: &mut Vec<FileMeta>)
    ensures
        final(file_meta)@.len() == old(file_meta)@.len(),
        forall|i: int| 0 <= i < final(file_meta)@.len() ==> (#[trigger] final(file_meta)@[i]).path@ == "data/"@ + old(file_meta)@[i].path@,
        forall|i: int| 0 <= i < final(file_meta)@.len() ==> (#[trigger] final(file_meta)@[i]).size_bytes == old(file_meta)@[i].size_bytes,
        forall|i: int| 0 <= i < final(file_meta)@.len() ==> (#[trigger] final(file_meta)@[i]).digests@ == old(file_meta)@[i].digests@,
{
    let ghost orig = file_meta@;
    let n = file_meta.len();
    let mut reversed: Vec<FileMeta> = Vec::new();
    while file_meta.len() > 0
        invariant
            file_meta@.len() + reversed@.len() == n,
            n == orig.len(),
            file_meta@ == orig.take(file_meta@.len() as int),
            forall|j: int| 0 <= j < reversed@.len() ==> (#[trigger] reversed@[j]).path@ == "data/"@ + orig[n - 1 - j].path@
                && reversed@[j].size_bytes == orig[n - 1 - j].size_bytes && reversed@[j].digests@ == orig[n - 1 - j].digests@,
        decreases file_meta@.len(),
    {
        let m = file_meta.pop().unwrap();
        let mut path = "data/".to_owned();
        path.append(m.path.as_str());
        reversed.push(FileMeta { path, size_bytes: m.size_bytes, digests: m.digests });
        assert(file_meta@ =~= orig.take(file_meta@.len() as int));
    }
    while reversed.len() > 0
        invariant
            file_meta@.len() + reversed@.len() == n,
            n == orig.len(),
            forall|j: int| 0 <= j < reversed@.len() ==> (#[trigger] reversed@[j]).path@ == "data/"@ + orig[n - 1 - j].path@
                && reversed@[j].size_bytes == orig[n - 1 - j].size_bytes && reversed@[j].digests@ == orig[n - 1 - j].digests@,
            forall|j: int| 0 <= j < file_meta@.len() ==> (#[trigger] file_meta@[j]).path@ == "data/"@ + orig[j].path@
                && file_meta@[j].size_bytes == orig[j].size_bytes && file_meta@[j].digests@ == orig[j].digests@,
        decreases reversed@.len(),
    {
        let m = reversed.pop().unwrap();
        file_meta.push(m);
    }
}

pub open spec fn is_blank(c: char) -> bool {
    c == ' ' || c == '\t'
}

/// The index of the first SPACE or TAB, or the length when there is none.
pub open spec fn blank_index(s: Seq<char>) -> nat
    decreases s.len(),
{
    if s.len() == 0 {
        0
    } else if is_blank(s[0]) {
        0
    } else {
        1 + blank_index(s.drop_first())
    }
}

/// A manifest line as read: a digest, one SPACE or TAB, optionally a second SPACE, TAB or the
/// binary marker `*`, then the percent-encoded path, optionally starting with `./`.
pub open spec fn parse_manifest_line_spec(l: Seq<char>) -> Option<(Seq<char>, Seq<char>)> {
    let d = blank_index(l);
    if d == 0 || d >= l.len() {
        None
    } else {
        let r1 = l.skip(d + 1int);
        let r2 = if r1.len() > 0 && (is_blank(r1[0]) || r1[0] == '*') {
            r1.drop_first()
        } else {
            r1
        };
        let r3 = if r2.len() >= 2 && r2[0] == '.' && r2[1] == '/' {
            r2.skip(2)
        } else {
            r2
        };
        if r3.len() > 0 && well_encoded(r3) {
            Some((l.take(d as int), decode_spec(r3)))
        } else {
            None
        }
    }
}

/// Parses one manifest line into its digest and its decoded path.
pub fn parse_manifest_line(line: &str) -> (r: Option<(String, String)>)
    ensures
        r matches Some((d, p)) ==> parse_manifest_line_spec(line@) == Some((d@, p@)),
        r is None ==> parse_manifest_line_spec(line@) is None,
{
    let cs = chars_of(line);
    let n = cs.len();
    let mut d: usize = 0;
    assert(line@.skip(0) =~= line@);
    while d < n && !(cs[d] == ' ' || cs[d] == '\t')
        invariant
            d <= n,
            n == cs@.len(),
            cs@ == line@,
            blank_index(line@) == d + blank_index(line@.skip(d as int)),
        decreases n - d,
    {
        proof {
            assert(line@.skip(d as int).drop_first() =~= line@.skip(d + 1));
        }
        d = d + 1;
    }
    proof {
        if d < n {
            assert(line@.skip(d as int)[0] == line@[d as int]);
        }
    }
    if d == 0 || d >= n {
        return None;
    }
    let mut start = d + 1;
    if start < n && (cs[start] == ' ' || cs[start] == '\t' || cs[start] == '*') {
        start = start + 1;
    }
    if n - start >= 2 && cs[start] == '.' && cs[start + 1] == '/' {
        start = start + 2;
    }
    let rest = crate::text::string_of_range(&cs, start, n);
    proof {
        let l = line@;
        let r1 = l.skip(d + 1int);
        let r2 = if r1.len() > 0 && (is_blank(r1[0]) || r1[0] == '*') { r1.drop_first() } else { r1 };
        if r1.len() > 0 && (is_blank(r1[0]) || r1[0] == '*') {
            assert(r1.drop_first() =~= l.skip(d + 2int));
        }
        if r2.len() >= 2 && r2[0] == '.' && r2[1] == '/' {
            assert(r2.skip(2) =~= cs@.subrange(start as int, n as int));
        } else {
            assert(r2 =~= cs@.subrange(start as int, n as int));
        }
    }
    if start >= n || !is_well_encoded(rest.as_str()) {
        return None;
    }
    let digest = crate::text::string_of_range(&cs, 0, d);
    assert(digest@ =~= line@.take(d as int));
    Some((digest, percent_decode(rest.as_str())))
}

/// Every line of a manifest's contents is valid UTF-8 and parses.
pub open spec fn manifest_lines_ok(b: Seq<u8>) -> bool {
    &&& all_valid(lines_spec(b))
    &&& forall|i: int| 0 <= i < lines_spec(b).len() ==> (#[trigger] parse_manifest_line_spec(decode_utf8(lines_spec(b)[i]))) is Some
}

/// The line is valid UTF-8 and parses as a manifest line.
pub open spec fn manifest_line_ok(seg: Seq<u8>) -> bool {
    valid_utf8(seg) && parse_manifest_line_spec(decode_utf8(seg)) is Some
}

/// The error for line `k` (0-based) of a manifest that fails: `InvalidString` when it is not
/// UTF-8, else `InvalidManifestLine` with the path, the 1-based number and the line itself.
pub open spec fn manifest_line_error(e: Error, path: Seq<char>, k: int, seg: Seq<u8>) -> bool {
    if valid_utf8(seg) {
        match e {
            Error::InvalidManifestLine { path: p, num, details } => p@ == path && num == k + 1 && details@ == decode_utf8(seg),
            _ => false,
        }
    } else {
        e is InvalidString
    }
}

/// The error of a manifest's contents: that of its first line that fails.
pub open spec fn manifest_error(e: Error, path: Seq<char>, b: Seq<u8>) -> bool {
    exists|k: int| 0 <= k < lines_spec(b).len() && !manifest_line_ok(#[trigger] lines_spec(b)[k])
        && (forall|i: int| 0 <= i < k ==> manifest_line_ok(#[trigger] lines_spec(b)[i]))
        && manifest_line_error(e, path, k, lines_spec(b)[k])
}

/// Reads a manifest's contents, found at `path`, into `(digest, path)` pairs, in order; the first
/// line that is not UTF-8 or does not parse is reported, with its 1-based number.
pub fn read_manifest(path: &str, contents: Vec<u8>) -> (r: Result<Vec<(String, String)>, Error>)
    ensures
        r matches Ok(v) ==> all_valid(lines_spec(contents@)) && v@.len() == lines_spec(contents@).len()
            && forall|i: int| 0 <= i < v@.len() ==> parse_manifest_line_spec(decode_utf8(lines_spec(contents@)[i])) == Some(((#[trigger] v@[i]).0@, v@[i].1@)),
        r is Ok <==> manifest_lines_ok(contents@),
        r matches Err(e) ==> manifest_error(e, path@, contents@),
{
    let ghost all = lines_spec(contents@);
    let mut reader = LineReader::new(contents);
    let mut out: Vec<(String, String)> = Vec::new();
    let mut num: usize = 0;
    assert(all.skip(0) =~= all);
    loop
        invariant
            reader.wf(),
            reader.pending() == all.skip(out@.len() as int),
            out@.len() + reader.pending().len() == all.len(),
            all == lines_spec(contents@),
            num == out@.len(),
            forall|i: int| 0 <= i < out@.len() ==> valid_utf8(#[trigger] all[i]),
            forall|i: int| 0 <= i < out@.len() ==> parse_manifest_line_spec(decode_utf8(all[i])) == Some(((#[trigger] out@[i]).0@, out@[i].1@)),
            reader.pending().len() <= usize::MAX - num,
        decreases reader.pending().len(),
    {
        let ghost pend = reader.pending();
        match reader.next_line() {
            None => {
                assert(out@.len() == all.len());
                assert forall|i: int| 0 <= i < all.len() implies (#[trigger] parse_manifest_line_spec(decode_utf8(all[i]))) is Some by {
                    assert(parse_manifest_line_spec(decode_utf8(all[i])) == Some((out@[i].0@, out@[i].1@)));
                }
                return Ok(out);
            },
            Some(Err(e)) => {
                proof {
                    assert(all[out@.len() as int] == pend[0]);
                    let k = out@.len() as int;
                    assert(!manifest_line_ok(all[k]));
                    assert(manifest_line_error(e, path@, k, all[k]));
                    assert forall|i: int| 0 <= i < k implies manifest_line_ok(#[trigger] lines_spec(contents@)[i]) by {
                        assert(parse_manifest_line_spec(decode_utf8(all[i])) == Some((out@[i].0@, out@[i].1@)));
                    }
                    assert(manifest_error(e, path@, contents@));
                }
                return Err(e);
            },
            Some(Ok(line)) => {
                num = num + 1;
                match parse_manifest_line(line.as_str()) {
                    Some(entry) => {
                        proof {
                            assert(all[out@.len() as int] == pend[0]);
                            assert(all.skip(out@.len() as int).drop_first() =~= all.skip(out@.len() + 1int));
                        }
                        out.push(entry);
                    },
                    None => {
                        proof {
                            assert(all[out@.len() as int] == pend[0]);
                            let k = out@.len() as int;
                            assert(!manifest_line_ok(all[k]));
                        }
                        let e = Error::InvalidManifestLine { path: path.to_owned(), num, details: line };
                        assert(manifest_line_error(e, path@, out@.len() as int, all[out@.len() as int]));
                        proof {
                            let k = out@.len() as int;
                            assert forall|i: int| 0 <= i < k implies manifest_line_ok(#[trigger] lines_spec(contents@)[i]) by {
                                assert(parse_manifest_line_spec(decode_utf8(all[i])) == Some((out@[i].0@, out@[i].1@)));
                            }
                            assert(manifest_error(e, path@, contents@));
                        }
                        return Err(e);
                    },
                }
            },
        }
    }
}

/// A manifest line written for an entry reads back as the entry's digest and its path, decoded:
/// paths with CR, LF or `%` survive the round trip. The digest must be non-empty and hold no
/// SPACE or TAB, and the path must be non-empty and not start with `./`.
pub proof fn lemma_manifest_line_round_trip(digest: Seq<char>, path: Seq<char>)
    requires
        digest.len() > 0,
        forall|i: int| 0 <= i < digest.len() ==> !is_blank(#[trigger] digest[i]),
        path.len() > 0,
        !(path.len() >= 2 && path[0] == '.' && path[1] == '/'),
    ensures
        parse_manifest_line_spec(manifest_line((encode_spec(path), digest)).drop_last()) == Some((digest, path)),
{
    let e = encode_spec(path);
    lemma_percent_round_trip(path);
    lemma_encode_prefix(path);
    let l = manifest_line((e, digest)).drop_last();
    assert(l =~= digest + (seq![' ', ' '] + e));
    lemma_blank_index_append(digest, seq![' ', ' '] + e);
    assert(blank_index(seq![' ', ' '] + e) == 0);
    assert(l.skip(digest.len() + 1int) =~= seq![' '] + e);
    assert((seq![' '] + e).drop_first() =~= e);
    assert(l.take(digest.len() as int) =~= digest);
}

proof fn lemma_encode_prefix(path: Seq<char>)
    requires
        path.len() > 0,
        !(path.len() >= 2 && path[0] == '.' && path[1] == '/'),
    ensures
        encode_spec(path).len() > 0,
        !(encode_spec(path).len() >= 2 && encode_spec(path)[0] == '.' && encode_spec(path)[1] == '/'),
{
    let e = encode_spec(path);
    let rest = path.drop_first();
    assert(e == crate::encoding::encode_char(path[0]) + encode_spec(rest));
    if path[0] == '.' {
        assert(e[0] == '.');
        if path.len() >= 2 {
            assert(rest[0] != '/');
            assert(encode_spec(rest) == crate::encoding::encode_char(rest[0]) + encode_spec(rest.drop_first()));
            assert(e[1] == encode_spec(rest)[0]);
        }
    }
}

proof fn lemma_blank_index_append(x: Seq<char>, y: Seq<char>)
    requires
        forall|i: int| 0 <= i < x.len() ==> !is_blank(#[trigger] x[i]),
    ensures
        blank_index(x + y) == x.len() + blank_index(y),
    decreases x.len(),
{
    if x.len() > 0 {
        assert((x + y).drop_first() =~= x.drop_first() + y);
        assert(!is_blank(x[0]));
        assert forall|i: int| 0 <= i < x.drop_first().len() implies !is_blank(#[trigger] x.drop_first()[i]) by {
            assert(x.drop_first()[i] == x[i + 1]);
        }
        lemma_blank_index_append(x.drop_first(), y);
    } else {
        assert(x + y =~= y);
    }
}

/// Path components joined by `/`, whatever the platform's own separator.
pub open spec fn joined_path(parts: Seq<Seq<char>>) -> Seq<char>
    decreases parts.len(),
{
    if parts.len() == 0 {
        Seq::empty()
    } else if parts.len() == 1 {
        parts[0]
    } else {
        joined_path(parts.drop_last()) + seq!['/'] + parts.last()
    }
}

/// The relative path of a file as manifests write it: its components joined by `/`.
pub fn relative_path(components: &Vec<String>) -> (r: String)
    ensures
        r@ == joined_path(string_views(components@)),
{
    let ghost parts = string_views(components@);
    let mut out = String::new();
    let mut i: usize = 0;
    assert(parts.take(0) =~= Seq::<Seq<char>>::empty());
    while i < components.len()
        invariant
            i <= components@.len(),
            parts == string_views(components@),
            out@ == joined_path(parts.take(i as int)),
        decreases components@.len() - i,
    {
        if i > 0 {
            push_char(&mut out, '/');
        }
        out.append(components[i].as_str());
        proof {
            assert(parts.take(i + 1).drop_last() =~= parts.take(i as int));
            assert(parts[i as int] == components@[i as int]@);
            if i == 0 {
                assert(parts.take(1)[0] == parts[0]);
            }
        }
        i = i + 1;
        assert(out@ =~= joined_path(parts.take(i as int)));
    }
    assert(parts.take(i as int) =~= parts);
    out
}

} // verus!
