//! File names and tag labels of the BagIt format.
use vstd::prelude::*;

verus! {

pub const UTF_8: &'static str = "UTF-8";

// Files of the bag root
pub const BAGIT_TXT: &'static str = "bagit.txt";
pub const BAG_INFO_TXT: &'static str = "bag-info.txt";
pub const FETCH_TXT: &'static str = "fetch.txt";
pub const DATA: &'static str = "data";
pub const PAYLOAD_MANIFEST_PREFIX: &'static str = "manifest";
pub const TAG_MANIFEST_PREFIX: &'static str = "tagmanifest";
pub const MANIFEST_SUFFIX: &'static str = ".txt";

// Manifest file names: the prefix, `-`, the algorithm's name in ASCII letters and digits, and
// `.txt`
pub const PAYLOAD_MANIFEST_PATTERN: &'static str = r"^manifest-([[:alnum:]]+)\.txt$";
pub const TAG_MANIFEST_PATTERN: &'static str = r"^tagmanifest-([[:alnum:]]+)\.txt$";

// bagit.txt tag labels
pub const LABEL_BAGIT_VERSION: &'static str = "BagIt-Version";
pub const LABEL_FILE_ENCODING: &'static str = "Tag-File-Character-Encoding";

// bag-info.txt reserved labels
pub const LABEL_BAGGING_DATE: &'static str = "Bagging-Date";
pub const LABEL_PAYLOAD_OXUM: &'static str = "Payload-Oxum";
pub const LABEL_SOFTWARE_AGENT: &'static str = "Bag-Software-Agent";
pub const LABEL_SOURCE_ORGANIZATION: &'static str = "Source-Organization";
pub const LABEL_ORGANIZATION_ADDRESS: &'static str = "Organization-Address";
pub const LABEL_CONTACT_NAME: &'static str = "Contact-Name";
pub const LABEL_CONTACT_PHONE: &'static str = "Contact-Phone";
pub const LABEL_CONTACT_EMAIL: &'static str = "Contact-Email";
pub const LABEL_EXTERNAL_DESCRIPTION: &'static str = "External-Description";
pub const LABEL_EXTERNAL_IDENTIFIER: &'static str = "External-Identifier";
pub const LABEL_BAG_SIZE: &'static str = "Bag-Size";
pub const LABEL_BAG_GROUP_IDENTIFIER: &'static str = "Bag-Group-Identifier";
pub const LABEL_BAG_COUNT: &'static str = "Bag-Count";
pub const LABEL_INTERNAL_SENDER_IDENTIFIER: &'static str = "Internal-Sender-Identifier";
pub const LABEL_INTERNAL_SENDER_DESCRIPTION: &'static str = "Internal-Sender-Description";
pub const LABEL_BAGIT_PROFILE_IDENTIFIER: &'static str = "BagIt-Profile-Identifier";

/// The format of Bagging-Date, `YYYY-MM-DD`.
pub const DATE_FORMAT: &'static str = "%Y-%m-%d";

/// The prefix of the staging directory that payload is gathered in.
pub const TEMP_DIR_PREFIX: &'static str = "temp-";

/// The software agent named in bag-info.txt when the caller names none.
pub const BAGR_SOFTWARE_AGENT: &'static str = "bagr v0.1.0 <https://github.com/pwinckles/bagr>";

} // verus!
