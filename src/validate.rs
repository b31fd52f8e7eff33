//! Validation of a bag, as far as the declaration: the verdict and the issues found.
use crate::consts::{BAGIT_TXT, LABEL_BAGIT_VERSION, LABEL_FILE_ENCODING};
use crate::error::{Error, IoErrorKind};
use crate::io::{all_valid, lines_spec};
use crate::tag::{declaration_error, declaration_ok, read_bag_declaration, BagDeclaration};
use crate::tagfile::{first_bad_line, parsed_tags, tag_line_error_details, tag_lines, tag_text_ok};
use crate::text::{decimal, push_decimal};
use vstd::prelude::*;

verus! {

/// The verdict on a bag.
#[derive(Debug, Copy, Clone, Eq, PartialEq, Structural)]
pub enum ValidationVerdict {
    Valid,
    Complete,
    Invalid,
}

/// How serious an issue is.
#[derive(Debug, Copy, Clone, Eq, PartialEq, Structural)]
pub enum IssueLevel {
    Error,
    Warn,
}

/// One problem found with a bag.
#[derive(Debug)]
pub struct ValidationIssue {
    level: IssueLevel,
    message: String,
}

impl View for ValidationIssue {
    type V = (IssueLevel, Seq<char>);

    closed spec fn view(&self) -> (IssueLevel, Seq<char>) {
        (self.level, self.message@)
    }
}

/// The verdict on a bag and the issues that led to it.
#[derive(Debug)]
pub struct ValidationResult {
    verdict: ValidationVerdict,
    issues: Vec<ValidationIssue>,
}

impl View for ValidationResult {
    type V = (ValidationVerdict, Seq<(IssueLevel, Seq<char>)>);

    closed spec fn view(&self) -> (ValidationVerdict, Seq<(IssueLevel, Seq<char>)>) {
        (self.verdict, self.issues@.map_values(|i: ValidationIssue| i@))
    }
}

impl ValidationIssue {
    pub fn error(message: &str) -> (r: Self)
        ensures
            r@ == (IssueLevel::Error, message@),
    {
        Self { level: IssueLevel::Error, message: message.to_owned() }
    }

    pub fn warn(message: &str) -> (r: Self)
        ensures
            r@ == (IssueLevel::Warn, message@),
    {
        Self { level: IssueLevel::Warn, message: message.to_owned() }
    }

    pub fn level(&self) -> (r: IssueLevel)
        ensures
            r == self@.0,
    {
        self.level
    }

    pub fn message(&self) -> (r: &str)
        ensures
            r@ == self@.1,
    {
        self.message.as_str()
    }
}

impl ValidationResult {
    /// A result that will call the bag valid unless an issue says otherwise.
    pub fn new_valid() -> (r: Self)
        ensures
            r@.0 == ValidationVerdict::Valid,
            r@.1.len() == 0,
    {
        let r = Self { verdict: ValidationVerdict::Valid, issues: Vec::new() };
        assert(r@.1 =~= Seq::empty());
        r
    }

    /// A result that will call the bag complete unless an issue says otherwise.
    pub fn new_complete() -> (r: Self)
        ensures
            r@.0 == ValidationVerdict::Complete,
            r@.1.len() == 0,
    {
        let r = Self { verdict: ValidationVerdict::Complete, issues: Vec::new() };
        assert(r@.1 =~= Seq::empty());
        r
    }

    pub fn invalid(&mut self)
        ensures
            final(self)@ == (ValidationVerdict::Invalid, old(self)@.1),
    {
        self.verdict = ValidationVerdict::Invalid;
    }

    pub fn error(&mut self, message: &str)
        ensures
            final(self)@ == (old(self)@.0, old(self)@.1.push((IssueLevel::Error, message@))),
    {
        self.issues.push(ValidationIssue::error(message));
        assert(self@.1 =~= old(self)@.1.push((IssueLevel::Error, message@)));
    }

    pub fn warn(&mut self, message: &str)
        ensures
            final(self)@ == (old(self)@.0, old(self)@.1.push((IssueLevel::Warn, message@))),
    {
        self.issues.push(ValidationIssue::warn(message));
        assert(self@.1 =~= old(self)@.1.push((IssueLevel::Warn, message@)));
    }

    pub fn verdict(&self) -> (r: ValidationVerdict)
        ensures
            r == self@.0,
    {
        self.verdict
    }

    pub fn issues(&self) -> (r: &Vec<ValidationIssue>)
        ensures
            r@.map_values(|i: ValidationIssue| i@) == self@.1,
    {
        &self.issues
    }
}

/// The errors of reading `bagit.txt` that make a bag invalid rather than stop its validation.
pub open spec fn declaration_issue(e: Error) -> bool {
    match e {
        Error::IoRead { kind, .. } => kind == IoErrorKind::NotFound || kind == IoErrorKind::PermissionDenied,
        Error::InvalidTagLineWithRef { .. } => true,
        Error::MissingTag { .. } => true,
        Error::InvalidBagItVersion { .. } => true,
        Error::UnsupportedEncoding { .. } => true,
        _ => false,
    }
}

/// The issue of a `bagit.txt` that lacks a required tag.
pub open spec fn missing_tag_message(tag: Seq<char>) -> Seq<char> {
    BAGIT_TXT@ + " is missing required tag '"@ + tag + "'"@
}

/// The issue of a `bagit.txt` whose version does not parse.
pub open spec fn invalid_version_message(value: Seq<char>) -> Seq<char> {
    BAGIT_TXT@ + " contains an invalid "@ + LABEL_BAGIT_VERSION@ + ": "@ + value
}

/// The issue of a `bagit.txt` that declares an encoding other than UTF-8.
pub open spec fn invalid_encoding_message(encoding: Seq<char>) -> Seq<char> {
    BAGIT_TXT@ + " contains an invalid "@ + LABEL_FILE_ENCODING@ + ": "@ + encoding
}

/// The issue of a `bagit.txt` whose tag number `num` does not parse.
pub open spec fn bad_line_message(num: nat, details: Seq<char>) -> Seq<char> {
    "Tag "@ + decimal(num) + " in "@ + BAGIT_TXT@ + " is invalid: "@ + details
}

/// The message of the issue that an error of reading `bagit.txt` becomes.
pub open spec fn declaration_issue_message(e: Error) -> Seq<char> {
    match e {
        Error::IoRead { kind, .. } => if kind == IoErrorKind::NotFound {
            BAGIT_TXT@ + " does not exist"@
        } else {
            BAGIT_TXT@ + " cannot be read"@
        },
        Error::InvalidTagLineWithRef { num, details, .. } => bad_line_message(num as nat, details@),
        Error::MissingTag { tag } => missing_tag_message(tag@),
        Error::InvalidBagItVersion { value } => invalid_version_message(value@),
        Error::UnsupportedEncoding { encoding } => invalid_encoding_message(encoding@),
        _ => Seq::empty(),
    }
}

/// A result that found the bag invalid for exactly one error issue.
pub open spec fn invalid_with(r: Result<ValidationResult, Error>, message: Seq<char>) -> bool {
    r matches Ok(v) && v@.0 == ValidationVerdict::Invalid && v@.1 == seq![(IssueLevel::Error, message)]
}

fn add_error(result: &mut ValidationResult, message: &str)
    ensures
        final(result)@.0 == ValidationVerdict::Invalid,
        final(result)@.1 == old(result)@.1.push((IssueLevel::Error, message@)),
{
    result.invalid();
    result.error(message);
}

/// Takes the outcome of reading the declaration: a declaration is returned; a missing or
/// unreadable `bagit.txt`, or one that does not parse or declares what is not supported, marks
/// the bag invalid with one error issue; any other error is returned.
pub fn read_and_validate_declaration(read: Result<BagDeclaration, Error>, result: &mut ValidationResult) -> (r: Result<Option<BagDeclaration>, Error>)
    ensures
        read is Ok ==> (r matches Ok(Some(_)) && final(result)@ == old(result)@),
        read is Err && declaration_issue(read->Err_0) ==> r matches Ok(None),
        read is Err && declaration_issue(read->Err_0) ==> final(result)@.0 == ValidationVerdict::Invalid,
        read is Err && declaration_issue(read->Err_0) ==> final(result)@.1.len() == old(result)@.1.len() + 1,
        read is Err && declaration_issue(read->Err_0) ==> final(result)@.1.drop_last() == old(result)@.1,
        read is Err && declaration_issue(read->Err_0) ==> final(result)@.1.last() == (IssueLevel::Error, declaration_issue_message(read->Err_0)),
        read matches Err(e) && !declaration_issue(e) ==> (r is Err && final(result)@ == old(result)@),
{
    match read {
        Ok(declaration) => Ok(Some(declaration)),
        Err(Error::IoRead { path, kind, details }) => {
            if kind == IoErrorKind::NotFound {
                let mut m = BAGIT_TXT.to_owned();
                m.append(" does not exist");
                add_error(result, m.as_str());
                Ok(None)
            } else if kind == IoErrorKind::PermissionDenied {
                let mut m = BAGIT_TXT.to_owned();
                m.append(" cannot be read");
                add_error(result, m.as_str());
                Ok(None)
            } else {
                Err(Error::IoRead { path, kind, details })
            }
        },
        Err(Error::InvalidTagLineWithRef { num, details, .. }) => {
            let mut m = "Tag ".to_owned();
            push_decimal(&mut m, num as u128);
            m.append(" in ");
            m.append(BAGIT_TXT);
            m.append(" is invalid: ");
            m.append(details.as_str());
            assert(m@ =~= "Tag "@ + decimal(num as nat) + " in "@ + BAGIT_TXT@ + " is invalid: "@ + details@);
            add_error(result, m.as_str());
            Ok(None)
        },
        Err(Error::MissingTag { tag }) => {
            let mut m = BAGIT_TXT.to_owned();
            m.append(" is missing required tag '");
            m.append(tag.as_str());
            m.append("'");
            add_error(result, m.as_str());
            Ok(None)
        },
        Err(Error::InvalidBagItVersion { value }) => {
            let mut m = BAGIT_TXT.to_owned();
            m.append(" contains an invalid ");
            m.append(LABEL_BAGIT_VERSION);
            m.append(": ");
            m.append(value.as_str());
            add_error(result, m.as_str());
            Ok(None)
        },
        Err(Error::UnsupportedEncoding { encoding }) => {
            let mut m = BAGIT_TXT.to_owned();
            m.append(" contains an invalid ");
            m.append(LABEL_FILE_ENCODING);
            m.append(": ");
            m.append(encoding.as_str());
            add_error(result, m.as_str());
            Ok(None)
        },
        Err(e) => Err(e),
    }
}

/// Validates a bag as far as its declaration, given the outcome of reading its `bagit.txt`
/// (the file's contents, or the error met reading it). With `integrity_check` the bag can be
/// found valid; without, complete.
pub fn validate_bag(base_dir: &str, bagit_txt: Result<Vec<u8>, Error>, integrity_check: bool) -> (r: Result<ValidationResult, Error>)
    ensures
        r matches Ok(v) ==> (v@.0 == ValidationVerdict::Invalid || v@.0 == if integrity_check { ValidationVerdict::Valid } else { ValidationVerdict::Complete }),
        r matches Ok(v) ==> (v@.0 == ValidationVerdict::Invalid <==> v@.1.len() > 0),
        bagit_txt matches Ok(c) && crate::bag::bagit_txt_ok(c@) ==> (r matches Ok(v) && v@.0 != ValidationVerdict::Invalid),
        bagit_txt is Err && declaration_issue(bagit_txt->Err_0) ==> invalid_with(r, declaration_issue_message(bagit_txt->Err_0)),
        bagit_txt is Err && !declaration_issue(bagit_txt->Err_0) ==> r is Err,
        bagit_txt is Ok && tag_text_ok((bagit_txt->Ok_0)@) && !declaration_ok(parsed_tags(tag_lines((bagit_txt->Ok_0)@))) ==> exists|e: Error| #[trigger] declaration_error(parsed_tags(tag_lines((bagit_txt->Ok_0)@)), e)
            && (declaration_issue(e) ==> invalid_with(r, declaration_issue_message(e))) && (!declaration_issue(e) ==> r is Err),
        bagit_txt is Ok && !tag_text_ok((bagit_txt->Ok_0)@) && all_valid(lines_spec((bagit_txt->Ok_0)@)) ==> exists|k: int| #[trigger] first_bad_line((bagit_txt->Ok_0)@, k)
            && invalid_with(r, bad_line_message((k + 1) as nat, tag_line_error_details(tag_lines((bagit_txt->Ok_0)@)[k]))),
{
    let mut result = if integrity_check {
        ValidationResult::new_valid()
    } else {
        ValidationResult::new_complete()
    };
    let read = match bagit_txt {
        Ok(contents) => {
            let path = crate::bag::join_path(base_dir, BAGIT_TXT);
            read_bag_declaration(path.as_str(), contents.as_slice())
        },
        Err(e) => Err(e),
    };
    let ghost read_result = read;
    let declaration = read_and_validate_declaration(read, &mut result);
    proof {
        assert(result@.1.len() <= 1);
        if result@.1.len() == 1 {
            assert(result@.1 =~= seq![result@.1.last()]);
        }
        if read_result is Err && declaration_issue(read_result->Err_0) {
            if bagit_txt is Ok {
                let e = read_result->Err_0;
                let c = bagit_txt->Ok_0;
                if tag_text_ok(c@) && !declaration_ok(parsed_tags(tag_lines(c@))) {
                    assert(declaration_error(parsed_tags(tag_lines(c@)), e));
                }
                if !tag_text_ok(c@) && all_valid(lines_spec(c@)) {
                    assert(first_bad_line(c@, (e->InvalidTagLineWithRef_num - 1) as int));
                }
            }
        }
        if read_result is Err && !declaration_issue(read_result->Err_0) {
            if bagit_txt is Ok {
                let c = bagit_txt->Ok_0;
                if tag_text_ok(c@) && !declaration_ok(parsed_tags(tag_lines(c@))) {
                    assert(declaration_error(parsed_tags(tag_lines(c@)), read_result->Err_0));
                }
            }
        }
    }
    let declaration = declaration?;
    // Without a valid declaration the version to validate against is unknown.
    match declaration {
        None => Ok(result),
        Some(_) => Ok(result),
    }
}

} // verus!
