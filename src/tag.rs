//! Tags, tag lists, the bag declaration and bag-info, and the tag-file format.
use crate::bag::{parse_version_spec, version_text, BagItVersion};
use crate::consts::{LABEL_BAGGING_DATE, LABEL_BAGIT_PROFILE_IDENTIFIER, LABEL_BAGIT_VERSION, LABEL_BAG_COUNT, LABEL_BAG_GROUP_IDENTIFIER, LABEL_BAG_SIZE, LABEL_CONTACT_EMAIL, LABEL_CONTACT_NAME, LABEL_CONTACT_PHONE, LABEL_EXTERNAL_DESCRIPTION, LABEL_EXTERNAL_IDENTIFIER, LABEL_FILE_ENCODING, LABEL_INTERNAL_SENDER_DESCRIPTION, LABEL_INTERNAL_SENDER_IDENTIFIER, LABEL_ORGANIZATION_ADDRESS, LABEL_PAYLOAD_OXUM, LABEL_SOFTWARE_AGENT, LABEL_SOURCE_ORGANIZATION, UTF_8};
use crate::error::Error;
use crate::tagfile::{tag_file_error, parsed_tags, read_tag_file, tag_file_contents, tag_file_text, tag_lines, tag_text_ok};
use crate::text::{
    char_eq_ignore_ascii_case, contains_cr_or_lf, eq_ignore_ascii_case, eq_ignore_ascii_case_spec, has_cr_or_lf,
    is_whitespace, same_text, trim_spec, trimmed_range, white_space,
};
use vstd::prelude::*;

verus! {

/// A label may not start or end with whitespace, and may not hold CR or LF.
pub open spec fn label_valid(l: Seq<char>) -> bool {
    &&& !(l.len() > 0 && white_space(l[0]))
    &&& !(l.len() > 0 && white_space(l.last()))
    &&& !has_cr_or_lf(l)
}

/// A value may not hold CR or LF: those only appear in a tag file as continuation structure.
pub open spec fn value_valid(v: Seq<char>) -> bool {
    !has_cr_or_lf(v)
}

pub open spec fn tag_valid(t: (Seq<char>, Seq<char>)) -> bool {
    label_valid(t.0) && value_valid(t.1)
}

/// The defect that an invalid tag is reported with: the first rule it breaks.
pub open spec fn tag_error_details(label: Seq<char>, value: Seq<char>) -> Seq<char> {
    if (label.len() > 0 && white_space(label[0])) || (label.len() > 0 && white_space(label.last())) {
        "Label must not start or end with whitespace"@
    } else if has_cr_or_lf(label) {
        "Label must not contain CR or LF characters"@
    } else {
        "Value must not contain CR or LF characters"@
    }
}

/// The error of an invalid tag: it carries the label and the defect.
pub open spec fn invalid_tag_error(e: Error, label: Seq<char>, value: Seq<char>) -> bool {
    match e {
        Error::InvalidTag { label: l, details } => l@ == label && details@ == tag_error_details(label, value),
        _ => false,
    }
}

/// A `(label, value)` pair of a tag file.
#[derive(Debug)]
pub struct Tag {
    label: String,
    value: String,
}

impl View for Tag {
    type V = (Seq<char>, Seq<char>);

    closed spec fn view(&self) -> (Seq<char>, Seq<char>) {
        (self.label@, self.value@)
    }
}

impl Tag {
    pub closed spec fn wf(&self) -> bool {
        tag_valid(self@)
    }

    /// Creates a tag after checking that its label and value are valid.
    pub fn new(label: &str, value: &str) -> (r: Result<Self, Error>)
        ensures
            r is Ok <==> tag_valid((label@, value@)),
            r matches Ok(t) ==> t@ == (label@, value@) && t.wf(),
            r matches Err(e) ==> invalid_tag_error(e, label@, value@),
    {
        Tag::validate_label(label)?;
        Tag::validate_value(label, value)?;
        Ok(Self { label: label.to_owned(), value: value.to_owned() })
    }

    pub fn label(&self) -> (r: &str)
        ensures
            r@ == self@.0,
    {
        self.label.as_str()
    }

    pub fn value(&self) -> (r: &str)
        ensures
            r@ == self@.1,
    {
        self.value.as_str()
    }

    /// A copy of the tag.
    pub fn copy(&self) -> (r: Tag)
        ensures
            r@ == self@,
            self.wf() ==> r.wf(),
    {
        Tag { label: self.label.clone(), value: self.value.clone() }
    }

    fn validate_label(label: &str) -> (r: Result<(), Error>)
        ensures
            r is Ok <==> label_valid(label@),
            r matches Err(e) ==> invalid_tag_error(e, label@, Seq::empty()),
    {
        let n = label.unicode_len();
        if n > 0 && (is_whitespace(label.get_char(0)) || is_whitespace(label.get_char(n - 1))) {
            return Err(
                Error::InvalidTag {
                    label: label.to_owned(),
                    details: "Label must not start or end with whitespace".to_owned(),
                },
            );
        }
        if contains_cr_or_lf(label) {
            return Err(
                Error::InvalidTag {
                    label: label.to_owned(),
                    details: "Label must not contain CR or LF characters".to_owned(),
                },
            );
        }
        Ok(())
    }

    fn validate_value(label: &str, value: &str) -> (r: Result<(), Error>)
        ensures
            r is Ok <==> value_valid(value@),
            label_valid(label@) ==> (r matches Err(e) ==> invalid_tag_error(e, label@, value@)),
    {
        if contains_cr_or_lf(value) {
            return Err(
                Error::InvalidTag {
                    label: label.to_owned(),
                    details: "Value must not contain CR or LF characters".to_owned(),
                },
            );
        }
        Ok(())
    }
}

/// The tags whose label matches `l`, ASCII case aside, in order.
pub open spec fn with_label(ts: Seq<(Seq<char>, Seq<char>)>, l: Seq<char>) -> Seq<(Seq<char>, Seq<char>)>
    decreases ts.len(),
{
    if ts.len() == 0 {
        Seq::empty()
    } else if eq_ignore_ascii_case_spec(ts.last().0, l) {
        with_label(ts.drop_last(), l).push(ts.last())
    } else {
        with_label(ts.drop_last(), l)
    }
}

/// The tags whose label does not match `l`, ASCII case aside, in order.
pub open spec fn without_label(ts: Seq<(Seq<char>, Seq<char>)>, l: Seq<char>) -> Seq<(Seq<char>, Seq<char>)>
    decreases ts.len(),
{
    if ts.len() == 0 {
        Seq::empty()
    } else if eq_ignore_ascii_case_spec(ts.last().0, l) {
        without_label(ts.drop_last(), l)
    } else {
        without_label(ts.drop_last(), l).push(ts.last())
    }
}

/// The first tag whose label matches `l`, ASCII case aside.
pub open spec fn first_with_label(ts: Seq<(Seq<char>, Seq<char>)>, l: Seq<char>) -> Option<(Seq<char>, Seq<char>)> {
    let m = with_label(ts, l);
    if m.len() == 0 {
        None
    } else {
        Some(m[0])
    }
}

proof fn lemma_with_label_prefix(ts: Seq<(Seq<char>, Seq<char>)>, l: Seq<char>, i: int)
    requires
        0 <= i < ts.len(),
    ensures
        with_label(ts.take(i + 1), l) == if eq_ignore_ascii_case_spec(ts[i].0, l) {
            with_label(ts.take(i), l).push(ts[i])
        } else {
            with_label(ts.take(i), l)
        },
        without_label(ts.take(i + 1), l) == if eq_ignore_ascii_case_spec(ts[i].0, l) {
            without_label(ts.take(i), l)
        } else {
            without_label(ts.take(i), l).push(ts[i])
        },
{
    assert(ts.take(i + 1).drop_last() =~= ts.take(i));
}

/// An ordered list of tags; lookups match labels ASCII-case-insensitively.
#[derive(Debug)]
pub struct TagList {
    tags: Vec<Tag>,
}

impl View for TagList {
    type V = Seq<(Seq<char>, Seq<char>)>;

    closed spec fn view(&self) -> Seq<(Seq<char>, Seq<char>)> {
        self.tags@.map_values(|t: Tag| t@)
    }
}

impl TagList {
    /// Every tag of the list is valid.
    pub closed spec fn wf(&self) -> bool {
        forall|i: int| 0 <= i < self.tags@.len() ==> (#[trigger] self.tags@[i]).wf()
    }

    pub fn new() -> (r: Self)
        ensures
            r@.len() == 0,
            r.wf(),
    {
        let r = Self { tags: Vec::new() };
        assert(r@ =~= Seq::empty());
        r
    }

    pub fn with_capacity(capacity: usize) -> (r: Self)
        ensures
            r@.len() == 0,
            r.wf(),
    {
        let r = Self { tags: Vec::with_capacity(capacity) };
        assert(r@ =~= Seq::empty());
        r
    }

    pub fn len(&self) -> (r: usize)
        ensures
            r == self@.len(),
    {
        self.tags.len()
    }

    /// The tag at index `i`.
    pub fn get(&self, i: usize) -> (r: &Tag)
        requires
            i < self@.len(),
        ensures
            r@ == self@[i as int],
            self.wf() ==> r.wf(),
    {
        &self.tags[i]
    }

    /// Returns all of the tags with the provided label, matched ASCII-case-insensitively.
    pub fn get_tags(&self, label: &str) -> (r: Vec<&Tag>)
        ensures
            r@.map_values(|t: &Tag| t@) == with_label(self@, label@),
    {
        let mut out: Vec<&Tag> = Vec::new();
        let mut i: usize = 0;
        while i < self.tags.len()
            invariant
                i <= self.tags@.len(),
                out@.map_values(|t: &Tag| t@) == with_label(self@.take(i as int), label@),
            decreases self.tags@.len() - i,
        {
            proof {
                lemma_with_label_prefix(self@, label@, i as int);
            }
            let t = &self.tags[i];
            if eq_ignore_ascii_case(t.label.as_str(), label) {
                out.push(t);
                assert(out@.map_values(|t: &Tag| t@) =~= with_label(self@.take(i as int), label@).push(self@[i as int]));
            }
            i = i + 1;
        }
        assert(self@.take(i as int) =~= self@);
        out
    }

    /// Returns the first tag with the provided label, matched ASCII-case-insensitively.
    pub fn get_tag(&self, label: &str) -> (r: Option<&Tag>)
        ensures
            r matches Some(t) ==> Some(t@) == first_with_label(self@, label@),
            r is None ==> first_with_label(self@, label@) is None,
    {
        let mut i: usize = 0;
        while i < self.tags.len()
            invariant
                i <= self.tags@.len(),
                with_label(self@.take(i as int), label@).len() == 0,
            decreases self.tags@.len() - i,
        {
            proof {
                lemma_with_label_prefix(self@, label@, i as int);
            }
            let t = &self.tags[i];
            if eq_ignore_ascii_case(t.label.as_str(), label) {
                proof {
                    lemma_with_label_prefix_first(self@, label@, i as int);
                }
                return Some(t);
            }
            i = i + 1;
        }
        assert(self@.take(i as int) =~= self@);
        None
    }

    pub fn add(&mut self, tag: Tag)
        requires
            tag.wf(),
            old(self).wf(),
        ensures
            final(self).wf(),
            final(self)@ == old(self)@.push(tag@),
    {
        self.tags.push(tag);
        assert(self@ =~= old(self)@.push(tag@));
    }

    /// Validates the label and value and appends them as a tag.
    pub fn add_tag(&mut self, label: &str, value: &str) -> (r: Result<(), Error>)
        requires
            old(self).wf(),
        ensures
            final(self).wf(),
            r is Ok <==> tag_valid((label@, value@)),
            r is Ok ==> final(self)@ == old(self)@.push((label@, value@)),
            r is Err ==> final(self)@ == old(self)@,
            r matches Err(e) ==> invalid_tag_error(e, label@, value@),
    {
        let tag = Tag::new(label, value)?;
        self.add(tag);
        Ok(())
    }

    /// Removes all of the tags with the provided label, matched ASCII-case-insensitively.
    pub fn remove_tags(&mut self, label: &str)
        requires
            old(self).wf(),
        ensures
            final(self).wf(),
            final(self)@ == without_label(old(self)@, label@),
    {
        let mut kept: Vec<Tag> = Vec::new();
        let mut i: usize = 0;
        while i < self.tags.len()
            invariant
                i <= self.tags@.len(),
                self.tags@ == old(self).tags@,
                self.wf(),
                kept@.map_values(|t: Tag| t@) == without_label(self@.take(i as int), label@),
                forall|j: int| 0 <= j < kept@.len() ==> (#[trigger] kept@[j]).wf(),
            decreases self.tags@.len() - i,
        {
            proof {
                lemma_with_label_prefix(self@, label@, i as int);
            }
            let t = &self.tags[i];
            if !eq_ignore_ascii_case(t.label.as_str(), label) {
                assert(self.tags@[i as int].wf());
                kept.push(t.copy());
                assert(kept@.map_values(|t: Tag| t@) =~= without_label(self@.take(i as int), label@).push(self@[i as int]));
            }
            i = i + 1;
        }
        assert(self@.take(i as int) =~= self@);
        self.tags = kept;
    }
}

proof fn lemma_with_label_prefix_first(ts: Seq<(Seq<char>, Seq<char>)>, l: Seq<char>, i: int)
    requires
        0 <= i < ts.len(),
        with_label(ts.take(i), l).len() == 0,
        eq_ignore_ascii_case_spec(ts[i].0, l),
    ensures
        first_with_label(ts, l) == Some(ts[i]),
{
    lemma_with_label_prefix(ts, l, i);
    lemma_with_label_extend(ts, l, i + 1);
}

proof fn lemma_with_label_extend(ts: Seq<(Seq<char>, Seq<char>)>, l: Seq<char>, k: int)
    requires
        0 <= k <= ts.len(),
        with_label(ts.take(k), l).len() > 0,
    ensures
        with_label(ts, l).len() > 0,
        with_label(ts, l)[0] == with_label(ts.take(k), l)[0],
    decreases ts.len() - k,
{
    if k == ts.len() {
        assert(ts.take(k) =~= ts);
    } else {
        lemma_with_label_prefix(ts, l, k);
        lemma_with_label_extend(ts, l, k + 1);
    }
}

/// The declaration of `bagit.txt`: the BagIt version and the tag-file character encoding.
#[derive(Debug)]
pub struct BagDeclaration {
    version: BagItVersion,
    encoding: String,
}

/// The first tag of the label `BagIt-Version`.
pub open spec fn version_tag(ts: Seq<(Seq<char>, Seq<char>)>) -> Option<(Seq<char>, Seq<char>)> {
    first_with_label(ts, LABEL_BAGIT_VERSION@)
}

/// The first tag of the label `Tag-File-Character-Encoding`.
pub open spec fn encoding_tag(ts: Seq<(Seq<char>, Seq<char>)>) -> Option<(Seq<char>, Seq<char>)> {
    first_with_label(ts, LABEL_FILE_ENCODING@)
}

/// The error that reading a declaration out of a list of tags reports, the first rule it
/// breaks.
pub open spec fn declaration_error(ts: Seq<(Seq<char>, Seq<char>)>, e: Error) -> bool {
    let vt = version_tag(ts);
    let et = encoding_tag(ts);
    match e {
        Error::MissingTag { tag } => (vt is None && tag@ == LABEL_BAGIT_VERSION@) || (vt is Some && parse_version_spec(vt.unwrap().1) is Some
            && et is None && tag@ == LABEL_FILE_ENCODING@),
        Error::InvalidBagItVersion { value } => vt is Some && parse_version_spec(vt.unwrap().1) is None && value@ == vt.unwrap().1,
        Error::UnsupportedVersion { version } => vt is Some && parse_version_spec(vt.unwrap().1) == Some(version) && version != (BagItVersion { major: 1, minor: 0 })
            && et is Some,
        Error::UnsupportedEncoding { encoding } => vt is Some && parse_version_spec(vt.unwrap().1) == Some(BagItVersion { major: 1, minor: 0 }) && et is Some
            && et.unwrap().1 != UTF_8@ && encoding@ == et.unwrap().1,
        _ => false,
    }
}

/// What a list of tags declares: the version and encoding that the reader accepts, or the
/// error that it reports.
pub open spec fn declaration_ok(ts: Seq<(Seq<char>, Seq<char>)>) -> bool {
    &&& first_with_label(ts, LABEL_BAGIT_VERSION@) matches Some(v) && parse_version_spec(v.1) == Some(BagItVersion { major: 1, minor: 0 })
    &&& first_with_label(ts, LABEL_FILE_ENCODING@) matches Some(e) && e.1 == UTF_8@
}

impl BagDeclaration {
    pub closed spec fn version_spec(&self) -> BagItVersion {
        self.version
    }

    pub closed spec fn encoding_spec(&self) -> Seq<char> {
        self.encoding@
    }

    /// The only declaration that can be built: version 1.0 and UTF-8.
    pub closed spec fn wf(&self) -> bool {
        self.version == BagItVersion { major: 1, minor: 0 } && self.encoding@ == UTF_8@
    }

    /// A declaration is well formed exactly when it declares version 1.0 in UTF-8.
    pub proof fn lemma_wf(&self)
        ensures
            self.wf() <==> (self.version_spec() == (BagItVersion { major: 1, minor: 0 }) && self.encoding_spec() == UTF_8@),
    {
    }

    pub fn new() -> (r: Self)
        ensures
            r.wf(),
            r.version_spec() == (BagItVersion { major: 1, minor: 0 }),
            r.encoding_spec() == UTF_8@,
    {
        Self { version: BagItVersion { major: 1, minor: 0 }, encoding: UTF_8.to_owned() }
    }

    /// A declaration of the given values, which must be version 1.0 and UTF-8.
    pub fn with_values(version: BagItVersion, encoding: &str) -> (r: Result<Self, Error>)
        ensures
            r is Ok <==> (version == BagItVersion { major: 1, minor: 0 } && encoding@ == UTF_8@),
            r matches Ok(d) ==> d.wf() && d.version_spec() == version && d.encoding_spec() == encoding@,
            version != (BagItVersion { major: 1, minor: 0 }) ==> (r matches Err(e) && e matches Error::UnsupportedVersion { version: v } && v == version),
            version == (BagItVersion { major: 1, minor: 0 }) && encoding@ != UTF_8@ ==> (r matches Err(e) && e matches Error::UnsupportedEncoding { encoding: x } && x@ == encoding@),
    {
        if !(version.major == 1 && version.minor == 0) {
            return Err(Error::UnsupportedVersion { version });
        }
        if !same_text(encoding, UTF_8) {
            return Err(Error::UnsupportedEncoding { encoding: encoding.to_owned() });
        }
        Ok(Self { version, encoding: encoding.to_owned() })
    }

    pub fn version(&self) -> (r: BagItVersion)
        ensures
            r == self.version_spec(),
    {
        self.version
    }

    pub fn encoding(&self) -> (r: &str)
        ensures
            r@ == self.encoding_spec(),
    {
        self.encoding.as_str()
    }

    /// The two tags of `bagit.txt`, in order.
    pub fn to_tags(&self) -> (r: TagList)
        requires
            self.wf(),
        ensures
            r.wf(),
            r@ == seq![(LABEL_BAGIT_VERSION@, version_text(self.version_spec())), (LABEL_FILE_ENCODING@, self.encoding_spec())],
    {
        let mut tags = TagList::with_capacity(2);
        let version = self.version.to_string();
        proof {
            reveal_strlit("BagIt-Version");
            reveal_strlit("Tag-File-Character-Encoding");
            reveal_strlit("UTF-8");
            assert(version@ =~= seq!['1', '.', '0']);
        }
        match Tag::new(LABEL_BAGIT_VERSION, version.as_str()) {
            Ok(t) => tags.add(t),
            Err(_) => {},
        }
        match Tag::new(LABEL_FILE_ENCODING, self.encoding.as_str()) {
            Ok(t) => tags.add(t),
            Err(_) => {},
        }
        assert(tags@ =~= seq![(LABEL_BAGIT_VERSION@, version_text(self.version_spec())), (LABEL_FILE_ENCODING@, self.encoding_spec())]);
        tags
    }

    /// The declaration that a list of tags makes.
    pub fn try_from(tags: &TagList) -> (r: Result<Self, Error>)
        ensures
            r is Ok <==> declaration_ok(tags@),
            r matches Ok(d) ==> d.wf() && d.version_spec() == (BagItVersion { major: 1, minor: 0 }) && d.encoding_spec() == UTF_8@,
            r matches Err(e) ==> declaration_error(tags@, e),
    {
        let version_tag = match tags.get_tag(LABEL_BAGIT_VERSION) {
            Some(t) => t,
            None => {
                return Err(Error::MissingTag { tag: LABEL_BAGIT_VERSION.to_owned() });
            },
        };
        let version = BagItVersion::parse(version_tag.value())?;
        let encoding_tag = match tags.get_tag(LABEL_FILE_ENCODING) {
            Some(t) => t,
            None => {
                return Err(Error::MissingTag { tag: LABEL_FILE_ENCODING.to_owned() });
            },
        };
        BagDeclaration::with_values(version, encoding_tag.value())
    }
}

/// Writes the contents of `bagit.txt`.
pub fn write_bag_declaration(bag_declaration: &BagDeclaration) -> (r: String)
    requires
        bag_declaration.wf(),
    ensures
        r@ == tag_file_text(seq![(LABEL_BAGIT_VERSION@, version_text(bag_declaration.version_spec())), (LABEL_FILE_ENCODING@, bag_declaration.encoding_spec())]),
{
    tag_file_contents(&bag_declaration.to_tags())
}

/// Reads a bag declaration out of the contents of `bagit.txt`, found at `path`.
pub fn read_bag_declaration(path: &str, contents: &[u8]) -> (r: Result<BagDeclaration, Error>)
    ensures
        r is Ok <==> tag_text_ok(contents@) && declaration_ok(parsed_tags(tag_lines(contents@))),
        r matches Ok(d) ==> d.wf() && d.version_spec() == (BagItVersion { major: 1, minor: 0 }) && d.encoding_spec() == UTF_8@,
        tag_text_ok(contents@) ==> (r matches Err(e) ==> declaration_error(parsed_tags(tag_lines(contents@)), e)),
        !tag_text_ok(contents@) ==> (r matches Err(e) && tag_file_error(e, path@, contents@)),
{
    let tags = read_tag_file(path, contents)?;
    BagDeclaration::try_from(&tags)
}

/// Reads bag info out of the contents of `bag-info.txt`, found at `path`.
pub fn read_bag_info(path: &str, contents: &[u8]) -> (r: Result<BagInfo, Error>)
    ensures
        r is Ok <==> tag_text_ok(contents@),
        r matches Ok(info) ==> info@ == parsed_tags(tag_lines(contents@)) && info.wf(),
        r matches Err(e) ==> tag_file_error(e, path@, contents@),
{
    let tags = read_tag_file(path, contents)?;
    Ok(BagInfo::with_tags(tags))
}

/// Writes the contents of `bag-info.txt`.
pub fn write_bag_info(bag_info: &BagInfo) -> (r: String)
    ensures
        r@ == tag_file_text(bag_info@),
{
    tag_file_contents(bag_info.tags())
}

/// The reserved labels that may appear at most once in bag-info.txt, matched
/// ASCII-case-insensitively.
pub open spec fn non_repeatable_label(l: Seq<char>) -> bool {
    eq_ignore_ascii_case_spec(l, LABEL_BAGGING_DATE@) || eq_ignore_ascii_case_spec(l, LABEL_PAYLOAD_OXUM@)
        || eq_ignore_ascii_case_spec(l, LABEL_SOFTWARE_AGENT@) || eq_ignore_ascii_case_spec(l, LABEL_BAG_SIZE@)
        || eq_ignore_ascii_case_spec(l, LABEL_BAG_GROUP_IDENTIFIER@) || eq_ignore_ascii_case_spec(l, LABEL_BAG_COUNT@)
}

/// Tests whether a label is a reserved one that may appear at most once.
pub fn is_non_repeatable_label(label: &str) -> (r: bool)
    ensures
        r == non_repeatable_label(label@),
{
    eq_ignore_ascii_case(label, LABEL_BAGGING_DATE) || eq_ignore_ascii_case(label, LABEL_PAYLOAD_OXUM)
        || eq_ignore_ascii_case(label, LABEL_SOFTWARE_AGENT) || eq_ignore_ascii_case(label, LABEL_BAG_SIZE)
        || eq_ignore_ascii_case(label, LABEL_BAG_GROUP_IDENTIFIER) || eq_ignore_ascii_case(label, LABEL_BAG_COUNT)
}

/// The tags of bag-info.txt, with setters for the reserved labels. Setters of labels that may
/// appear once replace any earlier tag of that label; the others append.
#[derive(Debug)]
pub struct BagInfo {
    tags: TagList,
}

impl View for BagInfo {
    type V = Seq<(Seq<char>, Seq<char>)>;

    closed spec fn view(&self) -> Seq<(Seq<char>, Seq<char>)> {
        self.tags@
    }
}

impl BagInfo {
    pub closed spec fn wf(&self) -> bool {
        self.tags.wf()
    }

    pub fn new() -> (r: Self)
        ensures
            r@.len() == 0,
            r.wf(),
    {
        Self { tags: TagList::new() }
    }

    pub fn with_capacity(capacity: usize) -> (r: Self)
        ensures
            r@.len() == 0,
            r.wf(),
    {
        Self { tags: TagList::with_capacity(capacity) }
    }

    pub fn with_tags(tags: TagList) -> (r: Self)
        ensures
            r@ == tags@,
            r.wf() == tags.wf(),
    {
        Self { tags }
    }

    /// Bag info holding the generated tags, Bagging-Date and Payload-Oxum.
    pub fn with_generated(bagging_date: &str, payload_oxum: &str) -> (r: Result<Self, Error>)
        ensures
            r is Ok <==> value_valid(bagging_date@) && value_valid(payload_oxum@),
            r matches Ok(info) ==> info.wf() && info@ == seq![(LABEL_BAGGING_DATE@, bagging_date@), (LABEL_PAYLOAD_OXUM@, payload_oxum@)],
            !value_valid(bagging_date@) ==> (r matches Err(e) && invalid_tag_error(e, LABEL_BAGGING_DATE@, bagging_date@)),
            value_valid(bagging_date@) && !value_valid(payload_oxum@) ==> (r matches Err(e) && invalid_tag_error(e, LABEL_PAYLOAD_OXUM@, payload_oxum@)),
    {
        let mut info = Self::with_capacity(2);
        match info.add_bagging_date(bagging_date) {
            Ok(()) => {},
            Err(e) => {
                return Err(e);
            },
        }
        match info.add_payload_oxum(payload_oxum) {
            Ok(()) => {},
            Err(e) => {
                return Err(e);
            },
        }
        proof {
            reveal_strlit("Bagging-Date");
            reveal_strlit("Payload-Oxum");
            assert(without_label(Seq::empty(), LABEL_BAGGING_DATE@) =~= Seq::empty());
            let one = seq![(LABEL_BAGGING_DATE@, bagging_date@)];
            assert(one.drop_last() =~= Seq::empty());
            assert(!eq_ignore_ascii_case_spec(LABEL_BAGGING_DATE@, LABEL_PAYLOAD_OXUM@)) by {
                assert(!char_eq_ignore_ascii_case(LABEL_BAGGING_DATE@[0], LABEL_PAYLOAD_OXUM@[0]));
            }
            assert(one.last().0 == LABEL_BAGGING_DATE@);
            assert(without_label(one.drop_last(), LABEL_PAYLOAD_OXUM@) =~= Seq::empty());
            assert(without_label(one, LABEL_PAYLOAD_OXUM@) == without_label(one.drop_last(), LABEL_PAYLOAD_OXUM@).push(one.last()));
            assert(without_label(one, LABEL_PAYLOAD_OXUM@) =~= one);
        }
        assert(info@ =~= seq![(LABEL_BAGGING_DATE@, bagging_date@), (LABEL_PAYLOAD_OXUM@, payload_oxum@)]);
        Ok(info)
    }

    /// The tags, in order.
    pub fn tags(&self) -> (r: &TagList)
        ensures
            r@ == self@,
            self.wf() ==> r.wf(),
    {
        &self.tags
    }

    pub fn into_tags(self) -> (r: TagList)
        ensures
            r@ == self@,
            self.wf() ==> r.wf(),
    {
        self.tags
    }

    /// Replaces every tag of the label with one tag of the value.
    fn set_tag(&mut self, label: &str, value: &str) -> (r: Result<(), Error>)
        requires
            old(self).wf(),
            label_valid(label@),
        ensures
            final(self).wf(),
            r is Ok <==> value_valid(value@),
            r is Ok ==> final(self)@ == without_label(old(self)@, label@).push((label@, value@)),
            r is Err ==> final(self)@ == old(self)@,
            r matches Err(e) ==> invalid_tag_error(e, label@, value@),
    {
        let tag = Tag::new(label, value)?;
        self.tags.remove_tags(label);
        self.tags.add(tag);
        Ok(())
    }

    /// Appends a tag of the label and value.
    fn append_tag(&mut self, label: &str, value: &str) -> (r: Result<(), Error>)
        requires
            old(self).wf(),
            label_valid(label@),
        ensures
            final(self).wf(),
            r is Ok <==> value_valid(value@),
            r is Ok ==> final(self)@ == old(self)@.push((label@, value@)),
            r is Err ==> final(self)@ == old(self)@,
            r matches Err(e) ==> invalid_tag_error(e, label@, value@),
    {
        self.tags.add_tag(label, value)
    }

    /// Adds a tag: one of a reserved label that may appear once replaces the earlier ones,
    /// any other is appended.
    pub fn add_tag(&mut self, label: &str, value: &str) -> (r: Result<(), Error>)
        requires
            old(self).wf(),
        ensures
            final(self).wf(),
            r is Ok <==> tag_valid((label@, value@)),
            r is Ok && non_repeatable_label(label@) ==> final(self)@ == without_label(old(self)@, label@).push((label@, value@)),
            r is Ok && !non_repeatable_label(label@) ==> final(self)@ == old(self)@.push((label@, value@)),
            r is Err ==> final(self)@ == old(self)@,
            r matches Err(e) ==> invalid_tag_error(e, label@, value@),
    {
        let tag = Tag::new(label, value)?;
        if is_non_repeatable_label(label) {
            self.tags.remove_tags(label);
        }
        self.tags.add(tag);
        Ok(())
    }

    pub fn bagging_date(&self) -> (r: Option<&Tag>)
        ensures
            r matches Some(t) ==> Some(t@) == first_with_label(self@, LABEL_BAGGING_DATE@),
            r is None ==> first_with_label(self@, LABEL_BAGGING_DATE@) is None,
    {
        self.tags.get_tag(LABEL_BAGGING_DATE)
    }

    pub fn software_agent(&self) -> (r: Option<&Tag>)
        ensures
            r matches Some(t) ==> Some(t@) == first_with_label(self@, LABEL_SOFTWARE_AGENT@),
            r is None ==> first_with_label(self@, LABEL_SOFTWARE_AGENT@) is None,
    {
        self.tags.get_tag(LABEL_SOFTWARE_AGENT)
    }

    pub fn payload_oxum(&self) -> (r: Option<&Tag>)
        ensures
            r matches Some(t) ==> Some(t@) == first_with_label(self@, LABEL_PAYLOAD_OXUM@),
            r is None ==> first_with_label(self@, LABEL_PAYLOAD_OXUM@) is None,
    {
        self.tags.get_tag(LABEL_PAYLOAD_OXUM)
    }

    /// Sets Bagging-Date, replacing any earlier value.
    pub fn add_bagging_date(&mut self, value: &str) -> (r: Result<(), Error>)
        requires
            old(self).wf(),
        ensures
            final(self).wf(),
            r is Ok <==> value_valid(value@),
            r is Ok ==> final(self)@ == without_label(old(self)@, LABEL_BAGGING_DATE@).push((LABEL_BAGGING_DATE@, value@)),
            r is Err ==> final(self)@ == old(self)@,
            r matches Err(e) ==> invalid_tag_error(e, LABEL_BAGGING_DATE@, value@),
    {
        proof {
            reveal_strlit("Bagging-Date");
        }
        self.set_tag(LABEL_BAGGING_DATE, value)
    }

    /// Sets Payload-Oxum, replacing any earlier value.
    pub fn add_payload_oxum(&mut self, value: &str) -> (r: Result<(), Error>)
        requires
            old(self).wf(),
        ensures
            final(self).wf(),
            r is Ok <==> value_valid(value@),
            r is Ok ==> final(self)@ == without_label(old(self)@, LABEL_PAYLOAD_OXUM@).push((LABEL_PAYLOAD_OXUM@, value@)),
            r is Err ==> final(self)@ == old(self)@,
            r matches Err(e) ==> invalid_tag_error(e, LABEL_PAYLOAD_OXUM@, value@),
    {
        proof {
            reveal_strlit("Payload-Oxum");
        }
        self.set_tag(LABEL_PAYLOAD_OXUM, value)
    }

    /// Sets Bag-Software-Agent, replacing any earlier value.
    pub fn add_software_agent(&mut self, value: &str) -> (r: Result<(), Error>)
        requires
            old(self).wf(),
        ensures
            final(self).wf(),
            r is Ok <==> value_valid(value@),
            r is Ok ==> final(self)@ == without_label(old(self)@, LABEL_SOFTWARE_AGENT@).push((LABEL_SOFTWARE_AGENT@, value@)),
            r is Err ==> final(self)@ == old(self)@,
            r matches Err(e) ==> invalid_tag_error(e, LABEL_SOFTWARE_AGENT@, value@),
    {
        proof {
            reveal_strlit("Bag-Software-Agent");
        }
        self.set_tag(LABEL_SOFTWARE_AGENT, value)
    }

    /// Sets Bag-Size, replacing any earlier value.
    pub fn add_bag_size(&mut self, value: &str) -> (r: Result<(), Error>)
        requires
            old(self).wf(),
        ensures
            final(self).wf(),
            r is Ok <==> value_valid(value@),
            r is Ok ==> final(self)@ == without_label(old(self)@, LABEL_BAG_SIZE@).push((LABEL_BAG_SIZE@, value@)),
            r is Err ==> final(self)@ == old(self)@,
            r matches Err(e) ==> invalid_tag_error(e, LABEL_BAG_SIZE@, value@),
    {
        proof {
            reveal_strlit("Bag-Size");
        }
        self.set_tag(LABEL_BAG_SIZE, value)
    }

    /// Sets Bag-Group-Identifier, replacing any earlier value.
    pub fn add_bag_group_identifier(&mut self, value: &str) -> (r: Result<(), Error>)
        requires
            old(self).wf(),
        ensures
            final(self).wf(),
            r is Ok <==> value_valid(value@),
            r is Ok ==> final(self)@ == without_label(old(self)@, LABEL_BAG_GROUP_IDENTIFIER@).push((LABEL_BAG_GROUP_IDENTIFIER@, value@)),
            r is Err ==> final(self)@ == old(self)@,
            r matches Err(e) ==> invalid_tag_error(e, LABEL_BAG_GROUP_IDENTIFIER@, value@),
    {
        proof {
            reveal_strlit("Bag-Group-Identifier");
        }
        self.set_tag(LABEL_BAG_GROUP_IDENTIFIER, value)
    }

    /// Sets Bag-Count, replacing any earlier value.
    pub fn add_bag_count(&mut self, value: &str) -> (r: Result<(), Error>)
        requires
            old(self).wf(),
        ensures
            final(self).wf(),
            r is Ok <==> value_valid(value@),
            r is Ok ==> final(self)@ == without_label(old(self)@, LABEL_BAG_COUNT@).push((LABEL_BAG_COUNT@, value@)),
            r is Err ==> final(self)@ == old(self)@,
            r matches Err(e) ==> invalid_tag_error(e, LABEL_BAG_COUNT@, value@),
    {
        proof {
            reveal_strlit("Bag-Count");
        }
        self.set_tag(LABEL_BAG_COUNT, value)
    }

    /// Adds a Source-Organization; the label may repeat.
    pub fn add_source_organization(&mut self, value: &str) -> (r: Result<(), Error>)
        requires
            old(self).wf(),
        ensures
            final(self).wf(),
            r is Ok <==> value_valid(value@),
            r is Ok ==> final(self)@ == old(self)@.push((LABEL_SOURCE_ORGANIZATION@, value@)),
            r is Err ==> final(self)@ == old(self)@,
            r matches Err(e) ==> invalid_tag_error(e, LABEL_SOURCE_ORGANIZATION@, value@),
    {
        proof {
            reveal_strlit("Source-Organization");
        }
        self.append_tag(LABEL_SOURCE_ORGANIZATION, value)
    }

    /// Adds a Organization-Address; the label may repeat.
    pub fn add_organization_address(&mut self, value: &str) -> (r: Result<(), Error>)
        requires
            old(self).wf(),
        ensures
            final(self).wf(),
            r is Ok <==> value_valid(value@),
            r is Ok ==> final(self)@ == old(self)@.push((LABEL_ORGANIZATION_ADDRESS@, value@)),
            r is Err ==> final(self)@ == old(self)@,
            r matches Err(e) ==> invalid_tag_error(e, LABEL_ORGANIZATION_ADDRESS@, value@),
    {
        proof {
            reveal_strlit("Organization-Address");
        }
        self.append_tag(LABEL_ORGANIZATION_ADDRESS, value)
    }

    /// Adds a Contact-Name; the label may repeat.
    pub fn add_contact_name(&mut self, value: &str) -> (r: Result<(), Error>)
        requires
            old(self).wf(),
        ensures
            final(self).wf(),
            r is Ok <==> value_valid(value@),
            r is Ok ==> final(self)@ == old(self)@.push((LABEL_CONTACT_NAME@, value@)),
            r is Err ==> final(self)@ == old(self)@,
            r matches Err(e) ==> invalid_tag_error(e, LABEL_CONTACT_NAME@, value@),
    {
        proof {
            reveal_strlit("Contact-Name");
        }
        self.append_tag(LABEL_CONTACT_NAME, value)
    }

    /// Adds a Contact-Phone; the label may repeat.
    pub fn add_contact_phone(&mut self, value: &str) -> (r: Result<(), Error>)
        requires
            old(self).wf(),
        ensures
            final(self).wf(),
            r is Ok <==> value_valid(value@),
            r is Ok ==> final(self)@ == old(self)@.push((LABEL_CONTACT_PHONE@, value@)),
            r is Err ==> final(self)@ == old(self)@,
            r matches Err(e) ==> invalid_tag_error(e, LABEL_CONTACT_PHONE@, value@),
    {
        proof {
            reveal_strlit("Contact-Phone");
        }
        self.append_tag(LABEL_CONTACT_PHONE, value)
    }

    /// Adds a Contact-Email; the label may repeat.
    pub fn add_contact_email(&mut self, value: &str) -> (r: Result<(), Error>)
        requires
            old(self).wf(),
        ensures
            final(self).wf(),
            r is Ok <==> value_valid(value@),
            r is Ok ==> final(self)@ == old(self)@.push((LABEL_CONTACT_EMAIL@, value@)),
            r is Err ==> final(self)@ == old(self)@,
            r matches Err(e) ==> invalid_tag_error(e, LABEL_CONTACT_EMAIL@, value@),
    {
        proof {
            reveal_strlit("Contact-Email");
        }
        self.append_tag(LABEL_CONTACT_EMAIL, value)
    }

    /// Adds a External-Description; the label may repeat.
    pub fn add_external_description(&mut self, value: &str) -> (r: Result<(), Error>)
        requires
            old(self).wf(),
        ensures
            final(self).wf(),
            r is Ok <==> value_valid(value@),
            r is Ok ==> final(self)@ == old(self)@.push((LABEL_EXTERNAL_DESCRIPTION@, value@)),
            r is Err ==> final(self)@ == old(self)@,
            r matches Err(e) ==> invalid_tag_error(e, LABEL_EXTERNAL_DESCRIPTION@, value@),
    {
        proof {
            reveal_strlit("External-Description");
        }
        self.append_tag(LABEL_EXTERNAL_DESCRIPTION, value)
    }

    /// Adds a External-Identifier; the label may repeat.
    pub fn add_external_identifier(&mut self, value: &str) -> (r: Result<(), Error>)
        requires
            old(self).wf(),
        ensures
            final(self).wf(),
            r is Ok <==> value_valid(value@),
            r is Ok ==> final(self)@ == old(self)@.push((LABEL_EXTERNAL_IDENTIFIER@, value@)),
            r is Err ==> final(self)@ == old(self)@,
            r matches Err(e) ==> invalid_tag_error(e, LABEL_EXTERNAL_IDENTIFIER@, value@),
    {
        proof {
            reveal_strlit("External-Identifier");
        }
        self.append_tag(LABEL_EXTERNAL_IDENTIFIER, value)
    }

    /// Adds a Internal-Sender-Identifier; the label may repeat.
    pub fn add_internal_sender_identifier(&mut self, value: &str) -> (r: Result<(), Error>)
        requires
            old(self).wf(),
        ensures
            final(self).wf(),
            r is Ok <==> value_valid(value@),
            r is Ok ==> final(self)@ == old(self)@.push((LABEL_INTERNAL_SENDER_IDENTIFIER@, value@)),
            r is Err ==> final(self)@ == old(self)@,
            r matches Err(e) ==> invalid_tag_error(e, LABEL_INTERNAL_SENDER_IDENTIFIER@, value@),
    {
        proof {
            reveal_strlit("Internal-Sender-Identifier");
        }
        self.append_tag(LABEL_INTERNAL_SENDER_IDENTIFIER, value)
    }

    /// Adds a Internal-Sender-Description; the label may repeat.
    pub fn add_internal_sender_description(&mut self, value: &str) -> (r: Result<(), Error>)
        requires
            old(self).wf(),
        ensures
            final(self).wf(),
            r is Ok <==> value_valid(value@),
            r is Ok ==> final(self)@ == old(self)@.push((LABEL_INTERNAL_SENDER_DESCRIPTION@, value@)),
            r is Err ==> final(self)@ == old(self)@,
            r matches Err(e) ==> invalid_tag_error(e, LABEL_INTERNAL_SENDER_DESCRIPTION@, value@),
    {
        proof {
            reveal_strlit("Internal-Sender-Description");
        }
        self.append_tag(LABEL_INTERNAL_SENDER_DESCRIPTION, value)
    }

    /// Adds a BagIt-Profile-Identifier; the label may repeat.
    pub fn add_bagit_profile_identifier(&mut self, value: &str) -> (r: Result<(), Error>)
        requires
            old(self).wf(),
        ensures
            final(self).wf(),
            r is Ok <==> value_valid(value@),
            r is Ok ==> final(self)@ == old(self)@.push((LABEL_BAGIT_PROFILE_IDENTIFIER@, value@)),
            r is Err ==> final(self)@ == old(self)@,
            r matches Err(e) ==> invalid_tag_error(e, LABEL_BAGIT_PROFILE_IDENTIFIER@, value@),
    {
        proof {
            reveal_strlit("BagIt-Profile-Identifier");
        }
        self.append_tag(LABEL_BAGIT_PROFILE_IDENTIFIER, value)
    }
}

/// Splits a `LABEL:VALUE` argument at its first `:` and trims both parts.
pub fn parse_tag_argument(tag: &str) -> (r: Result<(String, String), Error>)
    ensures
        crate::tagfile::index_of(tag@, ':') >= tag@.len() ==> (r matches Err(e) && e is InvalidTagLine),
        crate::tagfile::index_of(tag@, ':') < tag@.len() ==> (r matches Ok((l, v)) && l@ == trim_spec(tag@.take(crate::tagfile::index_of(tag@, ':') as int)) && v@ == trim_spec(tag@.skip(crate::tagfile::index_of(tag@, ':') + 1int))),
{
    let cs = crate::text::chars_of(tag);
    let n = cs.len();
    let mut c: usize = 0;
    assert(tag@.skip(0) =~= tag@);
    while c < n && cs[c] != ':'
        invariant
            c <= n,
            n == cs@.len(),
            cs@ == tag@,
            crate::tagfile::index_of(tag@, ':') == c + crate::tagfile::index_of(tag@.skip(c as int), ':'),
        decreases n - c,
    {
        proof {
            assert(tag@.skip(c as int).drop_first() =~= tag@.skip(c + 1));
        }
        c = c + 1;
    }
    proof {
        if c < n {
            assert(tag@.skip(c as int)[0] == tag@[c as int]);
        }
    }
    if c >= n {
        let mut details = "Label and value must be separated by a ':'. Found: ".to_owned();
        details.append(tag);
        return Err(Error::InvalidTagLine { details });
    }
    let label = trimmed_range(&cs, 0, c);
    let value = trimmed_range(&cs, c + 1, n);
    assert(cs@.subrange(0, c as int) =~= tag@.take(c as int));
    assert(cs@.subrange(c + 1, n as int) =~= tag@.skip(c + 1));
    Ok((label, value))
}

impl Default for TagList {
    fn default() -> (r: Self)
        ensures
            r@.len() == 0,
            r.wf(),
    {
        Self::new()
    }
}

impl Default for BagInfo {
    fn default() -> (r: Self)
        ensures
            r@.len() == 0,
            r.wf(),
    {
        Self::new()
    }
}

impl Default for BagDeclaration {
    fn default() -> (r: Self)
        ensures
            r.wf(),
    {
        Self::new()
    }
}

} // verus!
