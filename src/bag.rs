//! Bags: the version of the format, opening and updating a bag, and what bag creation decides.
use crate::consts::{BAGIT_TXT, BAG_INFO_TXT, BAGR_SOFTWARE_AGENT, DATA, DATE_FORMAT, LABEL_BAGGING_DATE, LABEL_PAYLOAD_OXUM, LABEL_SOFTWARE_AGENT, PAYLOAD_MANIFEST_PREFIX, TAG_MANIFEST_PREFIX, TEMP_DIR_PREFIX};
use crate::digest::{algorithm_rank, algorithms_in_order, in_order, sorted_unique, DigestAlgorithm};
use crate::error::Error;
use crate::manifest::{detected_set, is_tag_manifest, manifest_token, oxum_text, build_payload_oxum, string_views, detect_digest_algorithms, FileMeta};
use crate::tagfile::tag_file_error;
use crate::tag::{declaration_error, first_with_label, read_bag_declaration, read_bag_info, without_label, value_valid, declaration_ok, BagDeclaration, BagInfo};
use crate::tagfile::{index_of, parsed_tags, tag_lines, tag_text_ok};
use crate::text::{chars_of, decimal, has_cr_or_lf, contains_cr_or_lf, parse_u8, parse_u8_spec, push_char, push_decimal, same_text};
use vstd::prelude::*;

pub use crate::validate::validate_bag;

verus! {

/// A BagIt version, `MAJOR.MINOR`.
#[derive(Debug, Clone, Copy, PartialEq, Eq, Structural)]
pub struct BagItVersion {
    pub major: u8,
    pub minor: u8,
}

/// The version that a string names: two byte-sized decimal numbers around the first `.`.
pub open spec fn parse_version_spec(s: Seq<char>) -> Option<BagItVersion> {
    let c = index_of(s, '.');
    if c < s.len() {
        match (parse_u8_spec(s.take(c as int)), parse_u8_spec(s.skip(c + 1int))) {
            (Some(major), Some(minor)) => Some(BagItVersion { major, minor }),
            _ => None,
        }
    } else {
        None
    }
}

/// The form `MAJOR.MINOR` of a version.
pub open spec fn version_text(v: BagItVersion) -> Seq<char> {
    decimal(v.major as nat) + seq!['.'] + decimal(v.minor as nat)
}

impl BagItVersion {
    pub fn new(major: u8, minor: u8) -> (r: Self)
        ensures
            r.major == major,
            r.minor == minor,
    {
        Self { major, minor }
    }

    /// Parses `MAJOR.MINOR`; any other form is an error.
    pub fn parse(value: &str) -> (r: Result<Self, Error>)
        ensures
            r matches Ok(v) ==> parse_version_spec(value@) == Some(v),
            r is Err ==> parse_version_spec(value@) is None,
            r matches Err(e) ==> (e matches Error::InvalidBagItVersion { value: v } && v@ == value@),
    {
        let cs = chars_of(value);
        let n = cs.len();
        let mut c: usize = 0;
        assert(value@.skip(0) =~= value@);
        while c < n && cs[c] != '.'
            invariant
                c <= n,
                n == cs@.len(),
                cs@ == value@,
                index_of(value@, '.') == c + index_of(value@.skip(c as int), '.'),
            decreases n - c,
        {
            proof {
                assert(value@.skip(c as int).drop_first() =~= value@.skip(c + 1));
            }
            c = c + 1;
        }
        proof {
            if c < n {
                assert(value@.skip(c as int)[0] == value@[c as int]);
            }
        }
        if c >= n {
            return Err(Error::InvalidBagItVersion { value: value.to_owned() });
        }
        let major = parse_u8(&cs, 0, c);
        let minor = parse_u8(&cs, c + 1, n);
        proof {
            assert(cs@.subrange(0, c as int) =~= value@.take(c as int));
            assert(cs@.subrange(c + 1, n as int) =~= value@.skip(c + 1));
        }
        match (major, minor) {
            (Some(major), Some(minor)) => Ok(BagItVersion { major, minor }),
            _ => Err(Error::InvalidBagItVersion { value: value.to_owned() }),
        }
    }

    /// The form `MAJOR.MINOR`.
    pub fn to_string(&self) -> (r: String)
        ensures
            r@ == version_text(*self),
    {
        let mut out = String::new();
        push_decimal(&mut out, self.major as u128);
        push_char(&mut out, '.');
        push_decimal(&mut out, self.minor as u128);
        out
    }
}

/// The algorithms to use: those given, each once and in order, or SHA-512 when none is given.
pub open spec fn default_set(algs: Seq<DigestAlgorithm>) -> Set<DigestAlgorithm> {
    if algs.len() == 0 {
        set![DigestAlgorithm::Sha512]
    } else {
        algs.to_set()
    }
}

/// If no algorithm is given, SHA-512; otherwise the given algorithms, sorted and deduplicated.
pub fn defaulted_algorithms(algorithms: &[DigestAlgorithm]) -> (r: Vec<DigestAlgorithm>)
    ensures
        r@ == in_order(default_set(algorithms@)),
        sorted_unique(r@),
{
    let mut flags = [false; 6];
    let mut i: usize = 0;
    while i < algorithms.len()
        invariant
            i <= algorithms@.len(),
            forall|a: DigestAlgorithm| flags@[algorithm_rank(a) as int] == algorithms@.take(i as int).contains(a),
        decreases algorithms@.len() - i,
    {
        let a = algorithms[i];
        let k = crate::digest::algorithm_index(a);
        let ghost old_flags = flags@;
        flags[k] = true;
        proof {
            assert(algorithms@.take(i + 1) =~= algorithms@.take(i as int).push(a));
            assert forall|b: DigestAlgorithm| flags@[algorithm_rank(b) as int] == algorithms@.take(i + 1).contains(b) by {
                assert((algorithm_rank(b) == algorithm_rank(a)) == (a == b));
                if algorithms@.take(i as int).contains(b) {
                    let j = choose|j: int| 0 <= j < i && #[trigger] algorithms@.take(i as int)[j] == b;
                    assert(algorithms@.take(i + 1)[j] == b);
                }
                if algorithms@.take(i + 1).contains(b) && b != a {
                    let j = choose|j: int| 0 <= j < i + 1 && #[trigger] algorithms@.take(i + 1)[j] == b;
                    assert(algorithms@.take(i as int)[j] == b);
                }
                if b == a {
                    assert(algorithms@.take(i + 1)[i as int] == b);
                }
            }
        }
        i = i + 1;
    }
    if algorithms.len() == 0 {
        flags[3] = true;
    }
    let r = algorithms_in_order(&flags);
    proof {
        assert(algorithms@.take(i as int) =~= algorithms@);
        assert forall|a: DigestAlgorithm| Set::new(|a: DigestAlgorithm| flags@[algorithm_rank(a) as int]).contains(a) == default_set(algorithms@).contains(a) by {
            if algorithms@.len() == 0 {
                assert(!algorithms@.contains(a));
            }
        }
        assert(Set::new(|a: DigestAlgorithm| flags@[algorithm_rank(a) as int]) =~= default_set(algorithms@));
    }
    r
}

/// The name of a payload manifest: `manifest-NAME.txt`.
pub open spec fn payload_manifest_name(a: DigestAlgorithm) -> Seq<char> {
    crate::manifest::manifest_name(PAYLOAD_MANIFEST_PREFIX@, a)
}

proof fn lemma_manifest_name_token(a: DigestAlgorithm)
    ensures
        manifest_token(PAYLOAD_MANIFEST_PREFIX@, payload_manifest_name(a)) == Some(crate::digest::algorithm_name(a)),
{
    reveal_strlit("manifest");
    reveal_strlit(".txt");
    reveal_strlit("md5");
    reveal_strlit("sha1");
    reveal_strlit("sha256");
    reveal_strlit("sha512");
    reveal_strlit("blake2b256");
    reveal_strlit("blake2b512");
    let n = payload_manifest_name(a);
    let name = crate::digest::algorithm_name(a);
    assert(n =~= PAYLOAD_MANIFEST_PREFIX@ + seq!['-'] + name + ".txt"@);
    assert(n.take(8) =~= PAYLOAD_MANIFEST_PREFIX@);
    assert(n.skip(n.len() - 4) =~= ".txt"@);
    assert(n.subrange(9, n.len() - 4) =~= name);
    assert forall|i: int| 9 <= i < n.len() - 4 implies crate::manifest::is_ascii_alnum(#[trigger] n[i]) by {
        assert(n[i] == name[i - 9]);
    }
}

/// A bag created with algorithms `algs` and opened again reports exactly the sorted,
/// deduplicated algorithms (SHA-512 when none was given): the payload manifests written for them
/// name them again, and nothing else at the bag root reads as a payload manifest.
pub proof fn lemma_open_created_bag(algs: Seq<DigestAlgorithm>, names: Seq<Seq<char>>)
    requires
        forall|a: DigestAlgorithm| #[trigger] default_set(algs).contains(a) ==> names.contains(payload_manifest_name(a)),
        forall|i: int| 0 <= i < names.len() ==> (exists|a: DigestAlgorithm| default_set(algs).contains(a) && names[i] == #[trigger] payload_manifest_name(a))
            || manifest_token(PAYLOAD_MANIFEST_PREFIX@, #[trigger] names[i]) is None,
    ensures
        in_order(detected_set(names)) == in_order(default_set(algs)),
{
    assert forall|a: DigestAlgorithm| detected_set(names).contains(a) == default_set(algs).contains(a) by {
        if default_set(algs).contains(a) {
            let i = choose|i: int| 0 <= i < names.len() && names[i] == payload_manifest_name(a);
            lemma_manifest_name_token(a);
            crate::text::lemma_eq_ignore_ascii_case_reflexive(crate::digest::algorithm_name(a));
            assert(crate::manifest::name_detects(names[i], a));
        }
        if detected_set(names).contains(a) {
            let i = choose|i: int| 0 <= i < names.len() && #[trigger] crate::manifest::name_detects(names[i], a);
            if manifest_token(PAYLOAD_MANIFEST_PREFIX@, names[i]) is Some {
                let b = choose|b: DigestAlgorithm| default_set(algs).contains(b) && names[i] == #[trigger] payload_manifest_name(b);
                lemma_manifest_name_token(b);
                crate::text::lemma_eq_ignore_ascii_case_reflexive(crate::digest::algorithm_name(b));
                crate::manifest::lemma_token_names_unique(crate::digest::algorithm_name(b), b, a);
            }
        }
    }
    assert(detected_set(names) =~= default_set(algs));
}

/// A file or directory name that starts with `.`, other than `.` and `..`.
pub open spec fn hidden_name(name: Seq<char>) -> bool {
    name.len() > 0 && name[0] == '.' && name != seq!['.'] && name != seq!['.', '.']
}

/// Tests whether a file name is that of a hidden file.
pub fn is_hidden_file(name: &str) -> (r: bool)
    ensures
        r == hidden_name(name@),
{
    let n = name.unicode_len();
    if n == 0 || name.get_char(0) != '.' {
        return false;
    }
    if n == 1 {
        assert(name@ =~= seq!['.']);
        return false;
    }
    if n == 2 && name.get_char(1) == '.' {
        assert(name@ =~= seq!['.', '.']);
        return false;
    }
    true
}

/// Whether the walk of the source directory takes in an entry: every entry but the staging
/// directory. Hidden entries are taken in so that `walk_action` can delete them.
pub fn include_in_walk(name: &str, temp_name: &str) -> (r: bool)
    ensures
        r == (name@ != temp_name@),
{
    !same_text(name, temp_name)
}

/// Whether an entry met in the walk is deleted from the source: hidden ones are when hidden
/// files are left out.
pub fn delete_in_walk(name: &str, include_hidden_files: bool) -> (r: bool)
    ensures
        r == (!include_hidden_files && hidden_name(name@)),
{
    !include_hidden_files && is_hidden_file(name)
}

/// What the walk of the source directory meets.
#[derive(Debug, Clone, Copy, PartialEq, Eq, Structural)]
pub enum EntryKind {
    File,
    Dir,
    Other,
}

/// What is done with an entry of the source directory's walk.
#[derive(Debug, Clone, Copy, PartialEq, Eq, Structural)]
pub enum WalkAction {
    /// A hidden entry other than a directory, left out of the bag: deleted from the source.
    DeleteFile,
    /// A hidden directory left out of the bag: deleted from the source with all it holds.
    DeleteDir,
    /// A payload file: digested, then copied into the staging directory.
    CopyFile,
    /// A payload file: digested, then moved into the staging directory.
    MoveFile,
    /// A directory that is emptied by the moves and swept afterwards.
    SweepDir,
    /// A directory that stays as it is.
    Keep,
    /// Neither a regular file nor a directory: the bag cannot be made.
    Unsupported,
}

/// The action for an entry that the walk takes in (see `include_in_walk`). The root of the walk
/// is never deleted nor swept.
pub open spec fn walk_action_spec(name: Seq<char>, kind: EntryKind, is_root: bool, copy_op: bool, include_hidden_files: bool) -> WalkAction {
    if !is_root && !include_hidden_files && hidden_name(name) {
        if kind == EntryKind::Dir {
            WalkAction::DeleteDir
        } else {
            WalkAction::DeleteFile
        }
    } else if kind == EntryKind::File {
        if copy_op {
            WalkAction::CopyFile
        } else {
            WalkAction::MoveFile
        }
    } else if kind == EntryKind::Dir {
        if copy_op || is_root {
            WalkAction::Keep
        } else {
            WalkAction::SweepDir
        }
    } else {
        WalkAction::Unsupported
    }
}

pub fn walk_action(name: &str, kind: EntryKind, is_root: bool, copy_op: bool, include_hidden_files: bool) -> (r: WalkAction)
    ensures
        r == walk_action_spec(name@, kind, is_root, copy_op, include_hidden_files),
{
    if !is_root && delete_in_walk(name, include_hidden_files) {
        if kind == EntryKind::Dir {
            WalkAction::DeleteDir
        } else {
            WalkAction::DeleteFile
        }
    } else {
        match kind {
            EntryKind::File => if copy_op {
                WalkAction::CopyFile
            } else {
                WalkAction::MoveFile
            },
            EntryKind::Dir => if copy_op || is_root {
                WalkAction::Keep
            } else {
                WalkAction::SweepDir
            },
            EntryKind::Other => WalkAction::Unsupported,
        }
    }
}

/// Whether the walk of the bag root for the tag manifests takes in an entry below the root:
/// neither `data` nor a tag manifest.
pub fn include_in_tag_walk(name: &str) -> (r: bool)
    ensures
        r == (name@ != DATA@ && manifest_token(TAG_MANIFEST_PREFIX@, name@) is None),
{
    !same_text(name, DATA) && !is_tag_manifest(name)
}

/// The name of the staging directory: `temp-SECONDS`.
pub open spec fn temp_name_spec(seconds: nat) -> Seq<char> {
    TEMP_DIR_PREFIX@ + decimal(seconds)
}

pub fn temp_dir_name(seconds: u64) -> (r: String)
    ensures
        r@ == temp_name_spec(seconds as nat),
{
    let mut out = TEMP_DIR_PREFIX.to_owned();
    push_decimal(&mut out, seconds as u128);
    out
}

proof fn lemma_decimal_len(n: nat)
    ensures
        decimal(n).len() >= 1,
        n >= 10 ==> decimal(n).len() >= 2,
    decreases n,
{
    if n >= 10 {
        lemma_decimal_len(n / 10);
    }
}

proof fn lemma_digit_char_injective(x: nat, y: nat)
    requires
        x < 10,
        y < 10,
        crate::text::digit_char(x) == crate::text::digit_char(y),
    ensures
        x == y,
{
    assert(x == 0 || x == 1 || x == 2 || x == 3 || x == 4 || x == 5 || x == 6 || x == 7 || x == 8 || x == 9);
    assert(y == 0 || y == 1 || y == 2 || y == 3 || y == 4 || y == 5 || y == 6 || y == 7 || y == 8 || y == 9);
}

proof fn lemma_decimal_injective(a: nat, b: nat)
    requires
        decimal(a) == decimal(b),
    ensures
        a == b,
    decreases a,
{
    lemma_decimal_len(a);
    lemma_decimal_len(b);
    if a < 10 {
        assert(decimal(a) == seq![crate::text::digit_char(a)]);
    } else {
        assert(decimal(a) == decimal(a / 10).push(crate::text::digit_char(a % 10)));
    }
    if b < 10 {
        assert(decimal(b) == seq![crate::text::digit_char(b)]);
    } else {
        assert(decimal(b) == decimal(b / 10).push(crate::text::digit_char(b % 10)));
    }
    if a >= 10 && b >= 10 {
        assert(decimal(a).last() == decimal(b).last());
        assert(decimal(a).drop_last() =~= decimal(a / 10));
        assert(decimal(b).drop_last() =~= decimal(b / 10));
        lemma_decimal_injective(a / 10, b / 10);
        let x = crate::text::digit_char(a % 10);
        let y = crate::text::digit_char(b % 10);
        assert(decimal(a).last() == x);
        assert(decimal(b).last() == y);
        assert(x == y);
        lemma_digit_char_injective(a % 10, b % 10);
    } else if a < 10 && b < 10 {
        assert(decimal(a)[0] == crate::text::digit_char(a));
        assert(decimal(b)[0] == crate::text::digit_char(b));
        lemma_digit_char_injective(a, b);
    }
}

proof fn lemma_temp_name_injective(a: nat, b: nat)
    requires
        temp_name_spec(a) == temp_name_spec(b),
    ensures
        a == b,
{
    let p = TEMP_DIR_PREFIX@;
    assert(temp_name_spec(a).skip(p.len() as int) =~= decimal(a));
    assert(temp_name_spec(b).skip(p.len() as int) =~= decimal(b));
    lemma_decimal_injective(a, b);
}

/// The first staging directory name, from `seconds` on, that none of the existing names takes.
/// One is found among the first `existing.len() + 1`.
pub fn fresh_temp_dir_name(seconds: u64, existing: &Vec<String>) -> (r: Option<String>)
    requires
        seconds + existing@.len() < u64::MAX,
    ensures
        r is Some,
        r matches Some(n) ==> !string_views(existing@).contains(n@),
        r matches Some(n) ==> exists|k: nat| k <= existing@.len() && n@ == #[trigger] temp_name_spec((seconds + k) as nat)
            && forall|j: nat| j < k ==> string_views(existing@).contains(#[trigger] temp_name_spec((seconds + j) as nat)),
{
    let mut k: u64 = 0;
    let n = existing.len();
    let ghost views = string_views(existing@);
    while k <= n as u64
        invariant
            seconds + n < u64::MAX,
            n == existing@.len(),
            views == string_views(existing@),
            k <= n + 1,
            forall|j: nat| j < k ==> views.contains(#[trigger] temp_name_spec((seconds + j) as nat)),
        decreases n + 1 - k,
    {
        let candidate = temp_dir_name(seconds + k);
        let mut taken = false;
        let mut j: usize = 0;
        while j < n
            invariant
                j <= n,
                n == existing@.len(),
                views == string_views(existing@),
                !taken ==> forall|i: int| 0 <= i < j ==> existing@[i]@ != candidate@,
                taken ==> views.contains(candidate@),
            decreases n - j,
        {
            if same_text(existing[j].as_str(), candidate.as_str()) {
                taken = true;
                assert(views[j as int] == candidate@);
            }
            j = j + 1;
        }
        if !taken {
            proof {
                if views.contains(candidate@) {
                    let i = choose|i: int| 0 <= i < n && views[i] == candidate@;
                    assert(existing@[i]@ == candidate@);
                }
                let kk = k as nat;
                assert(kk <= existing@.len());
                assert(candidate@ == temp_name_spec((seconds + kk) as nat));
            }
            return Some(candidate);
        }
        proof {
            assert forall|j: nat| j < k + 1 implies views.contains(#[trigger] temp_name_spec((seconds + j) as nat)) by {
                if j == k {
                    assert(candidate@ == temp_name_spec((seconds + j) as nat));
                }
            }
        }
        k = k + 1;
    }
    proof {
        let cands = Seq::new((n + 1) as nat, |j: int| temp_name_spec((seconds + j) as nat));
        assert(cands.no_duplicates()) by {
            assert forall|i: int, j: int| 0 <= i < cands.len() && 0 <= j < cands.len() && i != j implies cands[i] != cands[j] by {
                if cands[i] == cands[j] {
                    lemma_temp_name_injective((seconds + i) as nat, (seconds + j) as nat);
                }
            }
        }
        cands.unique_seq_to_set();
        views.lemma_cardinality_of_set();
        assert(cands.to_set().subset_of(views.to_set())) by {
            assert forall|x: Seq<char>| cands.to_set().contains(x) implies views.to_set().contains(x) by {
                let i = choose|i: int| 0 <= i < cands.len() && cands[i] == x;
                assert(views.contains(temp_name_spec((seconds + (i as nat)) as nat)));
            }
        }
        vstd::set_lib::lemma_len_subset(cands.to_set(), views.to_set());
    }
    None
}

/// Joins a file name to a directory path.
pub fn join_path(dir: &str, name: &str) -> (r: String)
    ensures
        r@ == dir@ + seq!['/'] + name@,
{
    let mut out = dir.to_owned();
    push_char(&mut out, '/');
    out.append(name);
    out
}

/// A year as `%Y` writes it: at least four digits, with a sign before years outside 0..=9999.
pub open spec fn year_text(y: Seq<char>) -> bool {
    year_digits(y).len() >= 4 && forall|i: int| 0 <= i < year_digits(y).len() ==> crate::text::is_digit(#[trigger] year_digits(y)[i])
}

/// The digits of a year, after its sign if it has one.
pub open spec fn year_digits(y: Seq<char>) -> Seq<char> {
    if y.len() > 0 && (y[0] == '+' || y[0] == '-') {
        y.drop_first()
    } else {
        y
    }
}

/// A date in the form `YYYY-MM-DD`, the year as `year_text` allows.
pub open spec fn date_text(s: Seq<char>) -> bool {
    let n = s.len() as int;
    &&& n >= 10
    &&& s[n - 6] == '-' && s[n - 3] == '-'
    &&& crate::text::is_digit(s[n - 5]) && crate::text::is_digit(s[n - 4])
    &&& crate::text::is_digit(s[n - 2]) && crate::text::is_digit(s[n - 1])
    &&& year_text(s.take(n - 6))
}

proof fn lemma_date_plain(s: Seq<char>)
    requires
        date_text(s),
    ensures
        !has_cr_or_lf(s),
{
    let n = s.len() as int;
    let y = s.take(n - 6);
    let signed = y.len() > 0 && (y[0] == '+' || y[0] == '-');
    let d = year_digits(y);
    assert(year_text(y));
    assert forall|i: int| 0 <= i < n implies !crate::text::is_cr_or_lf(#[trigger] s[i]) by {
        if i < n - 6 {
            assert(s[i] == y[i]);
            if signed && i > 0 {
                assert(d[i - 1] == y[i]);
                assert(crate::text::is_digit(d[i - 1]));
            } else if !signed {
                assert(crate::text::is_digit(d[i]));
            }
        } else if i == n - 6 || i == n - 3 {
        } else if i == n - 5 || i == n - 4 || i == n - 2 || i == n - 1 {
        }
    }
}

/// Relies on `chrono::Local::now` and `DateTime::format`: with `%Y-%m-%d` the local date is
/// written as the year (`%Y`: at least four digits, signed outside 0..=9999), `-`, two digits of
/// month, `-`, two digits of day. The date depends on the clock.
#[verifier::external_body]
fn current_date_str(format: &str) -> (r: String)
    requires
        format@ == DATE_FORMAT@,
    ensures
        date_text(r@),
{
    chrono::Local::now().format(format).to_string()
}

/// The software agent that bag-info.txt names by default.
pub fn bagr_software_agent() -> (r: String)
    ensures
        r@ == BAGR_SOFTWARE_AGENT@,
        value_valid(r@),
{
    proof {
        reveal_strlit("bagr v0.1.0 <https://github.com/pwinckles/bagr>");
    }
    BAGR_SOFTWARE_AGENT.to_owned()
}

proof fn lemma_decimal_plain(n: nat)
    ensures
        !has_cr_or_lf(decimal(n)),
    decreases n,
{
    if n >= 10 {
        lemma_decimal_plain(n / 10);
        let d = decimal(n / 10);
        assert forall|i: int| 0 <= i < decimal(n).len() implies !crate::text::is_cr_or_lf(#[trigger] decimal(n)[i]) by {
            if i < d.len() {
                assert(decimal(n)[i] == d[i]);
            }
        }
    }
}

proof fn lemma_oxum_plain(ms: Seq<FileMeta>)
    ensures
        !has_cr_or_lf(oxum_text(ms)),
{
    lemma_decimal_plain(crate::manifest::total_size(ms));
    lemma_decimal_plain(ms.len());
    let a = decimal(crate::manifest::total_size(ms));
    let b = decimal(ms.len());
    assert forall|i: int| 0 <= i < oxum_text(ms).len() implies !crate::text::is_cr_or_lf(#[trigger] oxum_text(ms)[i]) by {
        if i < a.len() {
            assert(oxum_text(ms)[i] == a[i]);
        } else if i > a.len() {
            assert(oxum_text(ms)[i] == b[i - a.len() - 1]);
        }
    }
}

/// Bag-info with a Bagging-Date of `d` added when it has none.
pub open spec fn date_defaulted(ts: Seq<(Seq<char>, Seq<char>)>, d: Seq<char>) -> Seq<(Seq<char>, Seq<char>)> {
    if first_with_label(ts, LABEL_BAGGING_DATE@) is None {
        without_label(ts, LABEL_BAGGING_DATE@).push((LABEL_BAGGING_DATE@, d))
    } else {
        ts
    }
}

/// Bag-info with the default Bag-Software-Agent added when it has none.
pub open spec fn agent_defaulted(ts: Seq<(Seq<char>, Seq<char>)>) -> Seq<(Seq<char>, Seq<char>)> {
    if first_with_label(ts, LABEL_SOFTWARE_AGENT@) is None {
        without_label(ts, LABEL_SOFTWARE_AGENT@).push((LABEL_SOFTWARE_AGENT@, BAGR_SOFTWARE_AGENT@))
    } else {
        ts
    }
}

/// The tags with every tag of `label` replaced by one tag of `value`.
pub open spec fn replaced(ts: Seq<(Seq<char>, Seq<char>)>, label: Seq<char>, value: Seq<char>) -> Seq<(Seq<char>, Seq<char>)> {
    without_label(ts, label).push((label, value))
}

/// Completes the bag-info of a new bag, given today's date: adds Bagging-Date and
/// Bag-Software-Agent when they are missing, and sets Payload-Oxum to the payload's octet sum
/// and file count.
pub fn fill_bag_info(bag_info: &mut BagInfo, today: &str, payload_meta: &Vec<FileMeta>) -> (r: Result<(), Error>)
    requires
        old(bag_info).wf(),
    ensures
        final(bag_info).wf(),
        r is Ok <==> (first_with_label(old(bag_info)@, LABEL_BAGGING_DATE@) is Some || value_valid(today@)),
        r is Ok ==> final(bag_info)@ == replaced(agent_defaulted(date_defaulted(old(bag_info)@, today@)), LABEL_PAYLOAD_OXUM@, oxum_text(payload_meta@)),
        r is Err ==> final(bag_info)@ == old(bag_info)@,
        r matches Err(e) ==> e is InvalidTag,
{
    if bag_info.bagging_date().is_none() {
        if contains_cr_or_lf(today) {
            return Err(Error::InvalidTag { label: LABEL_BAGGING_DATE.to_owned(), details: "Value must not contain CR or LF characters".to_owned() });
        }
        let _ = bag_info.add_bagging_date(today);
    }
    if bag_info.software_agent().is_none() {
        let agent = bagr_software_agent();
        let _ = bag_info.add_software_agent(agent.as_str());
    }
    let oxum = build_payload_oxum(payload_meta);
    proof {
        lemma_oxum_plain(payload_meta@);
    }
    let _ = bag_info.add_payload_oxum(oxum.as_str());
    Ok(())
}

/// Completes the bag-info of a new bag with today's local date where it names none; see
/// `fill_bag_info`.
pub fn complete_bag_info(bag_info: &mut BagInfo, payload_meta: &Vec<FileMeta>)
    requires
        old(bag_info).wf(),
    ensures
        final(bag_info).wf(),
        exists|d: Seq<char>| (date_text(d) || first_with_label(old(bag_info)@, LABEL_BAGGING_DATE@) is Some) && value_valid(d) && final(bag_info)@ == replaced(agent_defaulted(date_defaulted(old(bag_info)@, d)), LABEL_PAYLOAD_OXUM@, oxum_text(payload_meta@)),
{
    let today = if bag_info.bagging_date().is_none() {
        let d = current_date_str(DATE_FORMAT);
        proof {
            lemma_date_plain(d@);
        }
        d
    } else {
        String::new()
    };
    assert(value_valid(today@));
    let ghost before = bag_info@;
    let r = fill_bag_info(bag_info, today.as_str(), payload_meta);
    assert(r is Ok);
    assert(bag_info@ == replaced(agent_defaulted(date_defaulted(before, today@)), LABEL_PAYLOAD_OXUM@, oxum_text(payload_meta@)));
}

/// A bag: its root directory, its declaration, its bag-info, and the algorithms of its payload
/// manifests.
#[derive(Debug)]
pub struct Bag {
    base_dir: String,
    declaration: BagDeclaration,
    bag_info: BagInfo,
    algorithms: Vec<DigestAlgorithm>,
}

impl Bag {
    pub closed spec fn base_dir_spec(&self) -> Seq<char> {
        self.base_dir@
    }

    pub closed spec fn info(&self) -> Seq<(Seq<char>, Seq<char>)> {
        self.bag_info@
    }

    pub closed spec fn algorithms_spec(&self) -> Seq<DigestAlgorithm> {
        self.algorithms@
    }

    pub closed spec fn wf(&self) -> bool {
        self.declaration.wf() && self.bag_info.wf()
    }

    pub fn new(base_dir: &str, declaration: BagDeclaration, bag_info: BagInfo, algorithms: Vec<DigestAlgorithm>) -> (r: Self)
        ensures
            r.base_dir_spec() == base_dir@,
            r.info() == bag_info@,
            r.algorithms_spec() == algorithms@,
            declaration.wf() && bag_info.wf() ==> r.wf(),
    {
        Self { base_dir: base_dir.to_owned(), declaration, bag_info, algorithms }
    }

    pub fn base_dir(&self) -> (r: &str)
        ensures
            r@ == self.base_dir_spec(),
    {
        self.base_dir.as_str()
    }

    pub fn declaration(&self) -> (r: &BagDeclaration)
        ensures
            self.wf() ==> r.wf(),
    {
        &self.declaration
    }

    pub fn bag_info(&self) -> (r: &BagInfo)
        ensures
            r@ == self.info(),
            self.wf() ==> r.wf(),
    {
        &self.bag_info
    }

    pub fn algorithms(&self) -> (r: &Vec<DigestAlgorithm>)
        ensures
            r@ == self.algorithms_spec(),
    {
        &self.algorithms
    }

    /// Creates a `BagUpdater` that's used to update an existing bag.
    pub fn update(self) -> (r: BagUpdater)
        ensures
            r.bag_spec() == self,
            r.recalculates(),
            r.override_algorithms().len() == 0,
            r.bagging_date_spec() is None,
            r.software_agent_spec() is None,
    {
        BagUpdater::new(self)
    }
}

/// The contents of `bagit.txt` declare BagIt 1.0 in UTF-8.
pub open spec fn bagit_txt_ok(contents: Seq<u8>) -> bool {
    tag_text_ok(contents) && declaration_ok(parsed_tags(tag_lines(contents)))
}

/// Opens the bag whose root is `base_dir`, given the contents of its `bagit.txt`, the names of
/// the files at its root, and the contents of its `bag-info.txt` if it has one. The bag's
/// algorithms are those of its payload manifests, each once and in order.
pub fn open_bag(base_dir: &str, bagit_txt: &[u8], root_file_names: &Vec<String>, bag_info_txt: Option<&[u8]>) -> (r: Result<Bag, Error>)
    ensures
        r is Ok <==> bagit_txt_ok(bagit_txt@) && match bag_info_txt {
            Some(c) => tag_text_ok(c@),
            None => true,
        },
        r matches Ok(b) ==> b.wf() && b.base_dir_spec() == base_dir@ && b.algorithms_spec() == in_order(detected_set(string_views(root_file_names@))),
        r matches Ok(b) ==> b.info() == match bag_info_txt {
            Some(c) => parsed_tags(tag_lines(c@)),
            None => Seq::empty(),
        },
        tag_text_ok(bagit_txt@) && !declaration_ok(parsed_tags(tag_lines(bagit_txt@))) ==> (r matches Err(e) && declaration_error(parsed_tags(tag_lines(bagit_txt@)), e)),
        !tag_text_ok(bagit_txt@) ==> (r matches Err(e) && tag_file_error(e, base_dir@ + seq!['/'] + BAGIT_TXT@, bagit_txt@)),
        bagit_txt_ok(bagit_txt@) ==> (r matches Err(e) ==> (bag_info_txt matches Some(c) && tag_file_error(e, base_dir@ + seq!['/'] + BAG_INFO_TXT@, c@))),
{
    let bagit_path = join_path(base_dir, BAGIT_TXT);
    let declaration = read_bag_declaration(bagit_path.as_str(), bagit_txt)?;
    let algorithms = detect_digest_algorithms(root_file_names);
    let bag_info = match bag_info_txt {
        Some(contents) => {
            let info_path = join_path(base_dir, BAG_INFO_TXT);
            read_bag_info(info_path.as_str(), contents)?
        },
        None => BagInfo::new(),
    };
    Ok(Bag::new(base_dir, declaration, bag_info, algorithms))
}

/// Changes to an existing bag, applied by `finalize`.
#[derive(Debug)]
pub struct BagUpdater {
    bag: Bag,
    recalculate_payload_manifests: bool,
    algorithms: Vec<DigestAlgorithm>,
    bagging_date: Option<String>,
    software_agent: Option<String>,
}

/// The algorithms that an update writes manifests with: the bag's own when payload manifests
/// are not recalculated or no algorithm was given, else the given ones, sorted and deduplicated.
pub open spec fn chosen_algorithms_spec(recalculate: bool, given: Seq<DigestAlgorithm>, current: Seq<DigestAlgorithm>) -> Seq<DigestAlgorithm> {
    if !recalculate || given.len() == 0 {
        current
    } else {
        in_order(given.to_set())
    }
}

impl BagUpdater {
    pub closed spec fn bag_spec(&self) -> Bag {
        self.bag
    }

    pub closed spec fn recalculates(&self) -> bool {
        self.recalculate_payload_manifests
    }

    pub closed spec fn override_algorithms(&self) -> Seq<DigestAlgorithm> {
        self.algorithms@
    }

    pub closed spec fn bagging_date_spec(&self) -> Option<Seq<char>> {
        match self.bagging_date {
            Some(d) => Some(d@),
            None => None,
        }
    }

    pub closed spec fn software_agent_spec(&self) -> Option<Seq<char>> {
        match self.software_agent {
            Some(a) => Some(a@),
            None => None,
        }
    }

    pub fn new(bag: Bag) -> (r: Self)
        ensures
            r.bag_spec() == bag,
            r.recalculates(),
            r.override_algorithms().len() == 0,
            r.bagging_date_spec() is None,
            r.software_agent_spec() is None,
    {
        Self { bag, recalculate_payload_manifests: true, algorithms: Vec::new(), bagging_date: None, software_agent: None }
    }

    /// Adds a digest algorithm to use for calculating manifests.
    pub fn with_algorithm(self, algorithm: DigestAlgorithm) -> (r: Self)
        ensures
            r.override_algorithms() == self.override_algorithms().push(algorithm),
            r.bag_spec() == self.bag_spec(),
            r.recalculates() == self.recalculates(),
            r.bagging_date_spec() == self.bagging_date_spec(),
            r.software_agent_spec() == self.software_agent_spec(),
    {
        let mut s = self;
        s.algorithms.push(algorithm);
        s
    }

    /// Sets the algorithms to use when calculating manifests. None means the algorithms of the
    /// existing manifests.
    pub fn with_algorithms(self, algorithms: &[DigestAlgorithm]) -> (r: Self)
        ensures
            r.override_algorithms() == algorithms@,
            r.bag_spec() == self.bag_spec(),
            r.recalculates() == self.recalculates(),
            r.bagging_date_spec() == self.bagging_date_spec(),
            r.software_agent_spec() == self.software_agent_spec(),
    {
        let mut s = self;
        let mut v: Vec<DigestAlgorithm> = Vec::new();
        let mut i: usize = 0;
        while i < algorithms.len()
            invariant
                i <= algorithms@.len(),
                v@ == algorithms@.take(i as int),
            decreases algorithms@.len() - i,
        {
            v.push(algorithms[i]);
            i = i + 1;
            assert(v@ =~= algorithms@.take(i as int));
        }
        assert(algorithms@.take(i as int) =~= algorithms@);
        s.algorithms = v;
        s
    }

    /// Sets the Bagging-Date to write; `None` for today's date.
    pub fn with_bagging_date(self, bagging_date: Option<String>) -> (r: Self)
        ensures
            r.bagging_date_spec() == match bagging_date {
                Some(d) => Some(d@),
                None => None::<Seq<char>>,
            },
            r.bag_spec() == self.bag_spec(),
            r.recalculates() == self.recalculates(),
            r.override_algorithms() == self.override_algorithms(),
            r.software_agent_spec() == self.software_agent_spec(),
    {
        let mut s = self;
        s.bagging_date = bagging_date;
        s
    }

    /// Sets the Bag-Software-Agent to write; `None` for this library's own.
    pub fn with_software_agent(self, software_agent: Option<String>) -> (r: Self)
        ensures
            r.software_agent_spec() == match software_agent {
                Some(a) => Some(a@),
                None => None::<Seq<char>>,
            },
            r.bag_spec() == self.bag_spec(),
            r.recalculates() == self.recalculates(),
            r.override_algorithms() == self.override_algorithms(),
            r.bagging_date_spec() == self.bagging_date_spec(),
    {
        let mut s = self;
        s.software_agent = software_agent;
        s
    }

    /// Enables or disables recalculating the payload manifests (enabled by default).
    pub fn recalculate_payload_manifests(self, recalculate: bool) -> (r: Self)
        ensures
            r.recalculates() == recalculate,
            r.bag_spec() == self.bag_spec(),
            r.override_algorithms() == self.override_algorithms(),
            r.bagging_date_spec() == self.bagging_date_spec(),
            r.software_agent_spec() == self.software_agent_spec(),
    {
        let mut s = self;
        s.recalculate_payload_manifests = recalculate;
        s
    }

    /// The bag being updated.
    pub fn bag(&self) -> (r: &Bag)
        ensures
            *r == self.bag_spec(),
    {
        &self.bag
    }

    /// Whether `finalize` recalculates the payload manifests.
    pub fn recalculating(&self) -> (r: bool)
        ensures
            r == self.recalculates(),
    {
        self.recalculate_payload_manifests
    }

    /// The algorithms that the manifests are written with.
    pub fn chosen_algorithms(&self) -> (r: Vec<DigestAlgorithm>)
        ensures
            r@ == chosen_algorithms_spec(self.recalculates(), self.override_algorithms(), self.bag_spec().algorithms_spec()),
    {
        if !self.recalculate_payload_manifests || self.algorithms.len() == 0 {
            let mut v: Vec<DigestAlgorithm> = Vec::new();
            let mut i: usize = 0;
            while i < self.bag.algorithms.len()
                invariant
                    i <= self.bag.algorithms@.len(),
                    v@ == self.bag.algorithms@.take(i as int),
                decreases self.bag.algorithms@.len() - i,
            {
                v.push(self.bag.algorithms[i]);
                i = i + 1;
                assert(v@ =~= self.bag.algorithms@.take(i as int));
            }
            assert(self.bag.algorithms@.take(i as int) =~= self.bag.algorithms@);
            v
        } else {
            defaulted_algorithms(self.algorithms.as_slice())
        }
    }

    /// Applies the update given today's date: sets Bagging-Date (the given one, else today) and
    /// Bag-Software-Agent (the given one, else the default), sets Payload-Oxum from the
    /// re-digested payload when payload manifests are recalculated and it is given, and records
    /// the chosen algorithms.
    pub fn finalize_on(self, today: &str, payload_meta: Option<&Vec<FileMeta>>) -> (r: Result<Bag, Error>)
        requires
            self.bag_spec().wf(),
        ensures
            r is Ok <==> value_valid(date_or(self.bagging_date_spec(), today@)) && value_valid(agent_or(self.software_agent_spec())),
            r matches Ok(b) ==> b.wf() && b.base_dir_spec() == self.bag_spec().base_dir_spec()
                && b.algorithms_spec() == chosen_algorithms_spec(self.recalculates(), self.override_algorithms(), self.bag_spec().algorithms_spec())
                && b.info() == oxum_updated(
                    replaced(replaced(self.bag_spec().info(), LABEL_BAGGING_DATE@, date_or(self.bagging_date_spec(), today@)), LABEL_SOFTWARE_AGENT@, agent_or(self.software_agent_spec())),
                    self.recalculates(),
                    payload_meta,
                ),
    {
        let algorithms = self.chosen_algorithms();
        let mut bag = self.bag;
        let date = match &self.bagging_date {
            Some(d) => d.clone(),
            None => today.to_owned(),
        };
        let agent = match &self.software_agent {
            Some(a) => a.clone(),
            None => bagr_software_agent(),
        };
        bag.bag_info.add_bagging_date(date.as_str())?;
        bag.bag_info.add_software_agent(agent.as_str())?;
        if self.recalculate_payload_manifests {
            match payload_meta {
                Some(meta) => {
                    let oxum = build_payload_oxum(meta);
                    proof {
                        lemma_oxum_plain(meta@);
                    }
                    let _ = bag.bag_info.add_payload_oxum(oxum.as_str());
                },
                None => {},
            }
        }
        bag.algorithms = algorithms;
        Ok(bag)
    }

    /// Applies the update with today's local date where no Bagging-Date was given; see
    /// `finalize_on`.
    pub fn finalize(self, payload_meta: Option<&Vec<FileMeta>>) -> (r: Result<Bag, Error>)
        requires
            self.bag_spec().wf(),
        ensures
            self.bagging_date_spec() is Some ==> (r is Ok <==> value_valid(self.bagging_date_spec().unwrap()) && value_valid(agent_or(self.software_agent_spec()))),
            self.bagging_date_spec() is None ==> (r is Ok <==> value_valid(agent_or(self.software_agent_spec()))),
            r matches Ok(b) ==> b.wf() && b.base_dir_spec() == self.bag_spec().base_dir_spec()
                && b.algorithms_spec() == chosen_algorithms_spec(self.recalculates(), self.override_algorithms(), self.bag_spec().algorithms_spec())
                && exists|d: Seq<char>| #[trigger] finalized_with(b, self, payload_meta, d),
    {
        let today = if self.bagging_date.is_none() {
            let d = current_date_str(DATE_FORMAT);
            proof {
                lemma_date_plain(d@);
            }
            d
        } else {
            String::new()
        };
        let ghost before = self;
        let r = self.finalize_on(today.as_str(), payload_meta);
        proof {
            if r is Ok {
                assert(finalized_with(r->Ok_0, before, payload_meta, today@));
            }
        }
        r
    }
}

/// What an update leaves in the bag's tags when its date, where none was given, is `d`: a date
/// of the form `YYYY-MM-DD`.
pub open spec fn finalized_with(b: Bag, u: BagUpdater, payload_meta: Option<&Vec<FileMeta>>, d: Seq<char>) -> bool {
    &&& (date_text(d) || u.bagging_date_spec() is Some)
    &&& b.info() == oxum_updated(
        replaced(replaced(u.bag_spec().info(), LABEL_BAGGING_DATE@, date_or(u.bagging_date_spec(), d)), LABEL_SOFTWARE_AGENT@, agent_or(u.software_agent_spec())),
        u.recalculates(),
        payload_meta,
    )
}

/// The given date, else `today`.
pub open spec fn date_or(given: Option<Seq<char>>, today: Seq<char>) -> Seq<char> {
    match given {
        Some(d) => d,
        None => today,
    }
}

/// The given software agent, else the default one.
pub open spec fn agent_or(given: Option<Seq<char>>) -> Seq<char> {
    match given {
        Some(a) => a,
        None => BAGR_SOFTWARE_AGENT@,
    }
}

/// The tags with Payload-Oxum set from the files, when payload manifests are recalculated and
/// the files are given.
pub open spec fn oxum_updated(ts: Seq<(Seq<char>, Seq<char>)>, recalculate: bool, payload_meta: Option<&Vec<FileMeta>>) -> Seq<(Seq<char>, Seq<char>)> {
    match payload_meta {
        Some(m) => if recalculate {
            replaced(ts, LABEL_PAYLOAD_OXUM@, oxum_text(m@))
        } else {
            ts
        },
        None => ts,
    }
}

} // verus!
