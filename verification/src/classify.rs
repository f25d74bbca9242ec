//! Classifying archive entries: which entries the extractor knows how to
//! export, and the diagnostic label for those it does not.

use vstd::prelude::*;

verus! {

/// The numeric class identifier of raster texture entries.
pub const CLASS_ID_TEXTURE2D: i32 = 28;

/// The numeric class identifier of text-blob entries.
pub const CLASS_ID_TEXT_ASSET: i32 = 49;

/// The numeric class identifier of sprite entries.
pub const CLASS_ID_SPRITE: i32 = 213;

/// The exportable kinds of archive entries.
#[derive(Clone, Copy, Debug, PartialEq, Eq, Structural)]
pub enum AssetType {
    Sprite,
    Texture2D,
    TextAsset,
}

/// Which exportable kind, if any, a numeric class identifier denotes.
pub open spec fn spec_class_of(class_id: int) -> Option<AssetType> {
    if class_id == CLASS_ID_TEXTURE2D as int {
        Some(AssetType::Texture2D)
    } else if class_id == CLASS_ID_TEXT_ASSET as int {
        Some(AssetType::TextAsset)
    } else if class_id == CLASS_ID_SPRITE as int {
        Some(AssetType::Sprite)
    } else {
        None
    }
}

/// Decides whether a class identifier belongs to the closed set of kinds the
/// extractor supports, and which kind it is.
pub fn classify_class(class_id: i32) -> (r: Option<AssetType>)
    ensures
        r == spec_class_of(class_id as int),
{
    if class_id == CLASS_ID_TEXTURE2D {
        Some(AssetType::Texture2D)
    } else if class_id == CLASS_ID_TEXT_ASSET {
        Some(AssetType::TextAsset)
    } else if class_id == CLASS_ID_SPRITE {
        Some(AssetType::Sprite)
    } else {
        None
    }
}

/// The canonical tag of an exportable kind, as it appears in configuration
/// files and inspection reports.
pub open spec fn spec_type_tag(t: AssetType) -> Seq<char> {
    match t {
        AssetType::Sprite => "sprite"@,
        AssetType::Texture2D => "texture2d"@,
        AssetType::TextAsset => "text"@,
    }
}

/// Returns the canonical tag of an exportable kind.
pub fn type_tag(t: AssetType) -> (r: &'static str)
    ensures
        r@ == spec_type_tag(t),
{
    match t {
        AssetType::Sprite => "sprite",
        AssetType::Texture2D => "texture2d",
        AssetType::TextAsset => "text",
    }
}

/// The exportable kind a configuration tag denotes, if any.
pub open spec fn spec_parse_type_tag(tag: Seq<char>) -> Option<AssetType> {
    if tag == "sprite"@ {
        Some(AssetType::Sprite)
    } else if tag == "texture2d"@ {
        Some(AssetType::Texture2D)
    } else if tag == "text"@ {
        Some(AssetType::TextAsset)
    } else {
        None
    }
}

/// Parses a configuration file's type tag; an unknown tag is a configuration
/// error.
pub fn parse_type_tag(tag: &str) -> (r: Option<AssetType>)
    ensures
        r == spec_parse_type_tag(tag@),
{
    let owned: String = tag.to_owned();
    if owned == String::from_str("sprite") {
        Some(AssetType::Sprite)
    } else if owned == String::from_str("texture2d") {
        Some(AssetType::Texture2D)
    } else if owned == String::from_str("text") {
        Some(AssetType::TextAsset)
    } else {
        None
    }
}

/// Law: the canonical tag of every kind parses back to that kind.
pub proof fn lemma_type_tag_round_trip(t: AssetType)
    ensures
        spec_parse_type_tag(spec_type_tag(t)) == Some(t),
{
    reveal_strlit("sprite");
    reveal_strlit("texture2d");
    reveal_strlit("text");
    assert(spec_type_tag(t).len() != 0);
    match t {
        AssetType::Sprite => {
            assert("sprite"@.len() == 6);
        },
        AssetType::Texture2D => {
            assert("texture2d"@.len() == 9);
            assert("sprite"@.len() == 6);
        },
        AssetType::TextAsset => {
            assert("text"@.len() == 4);
            assert("sprite"@.len() == 6);
            assert("texture2d"@.len() == 9);
        },
    }
}

/// The diagnostic label carried by entries of a class the extractor does not
/// support: the class's printable name followed by a marker.
pub open spec fn spec_unsupported_label(class_label: Seq<char>) -> Seq<char> {
    class_label + " (unsupported)"@
}

/// Builds the diagnostic label for an entry of an unsupported class.
pub fn unsupported_label(class_label: &str) -> (r: String)
    ensures
        r@ == spec_unsupported_label(class_label@),
{
    let owned: String = class_label.to_owned();
    owned.concat(" (unsupported)")
}

/// The classifier's verdict on one archive entry: either an exportable kind
/// together with the entry's decoded display name, or a diagnostic label.
pub enum AssetMetadata {
    Supported(AssetType, String),
    Unsupported(String),
}

impl AssetMetadata {
    /// Whether the entry can be exported.
    pub open spec fn spec_is_supported(&self) -> bool {
        self is Supported
    }

    /// Returns whether the entry can be exported.
    pub fn is_supported(&self) -> (r: bool)
        ensures
            r == self.spec_is_supported(),
    {
        match self {
            AssetMetadata::Supported(_, _) => true,
            AssetMetadata::Unsupported(_) => false,
        }
    }

    /// The type column of an inspection report: the canonical tag for a
    /// supported entry, the diagnostic label otherwise.
    pub fn type_label(&self) -> (r: &str)
        ensures
            r@ == match self {
                AssetMetadata::Supported(t, _) => spec_type_tag(*t),
                AssetMetadata::Unsupported(l) => l@,
            },
    {
        match self {
            AssetMetadata::Supported(t, _) => type_tag(*t),
            AssetMetadata::Unsupported(l) => l.as_str(),
        }
    }

    /// The display name of an entry: the decoded name for a supported entry,
    /// empty otherwise.
    pub fn display_name(&self) -> (r: &str)
        ensures
            r@ == match self {
                AssetMetadata::Supported(_, n) => n@,
                AssetMetadata::Unsupported(_) => Seq::<char>::empty(),
            },
    {
        match self {
            AssetMetadata::Supported(_, n) => n.as_str(),
            AssetMetadata::Unsupported(_) => {
                let empty = "";
                proof {
                    reveal_strlit("");
                    assert(empty@ =~= Seq::<char>::empty());
                }
                empty
            },
        }
    }
}

/// Assembles the classifier's verdict for one archive entry from its numeric
/// class identifier, its printable class label, and its decoded display name
/// (used only when the class is supported).
pub fn classify_entry(class_id: i32, class_label: &str, decoded_name: String) -> (m: AssetMetadata)
    ensures
        spec_class_of(class_id as int) matches Some(t) ==> m == AssetMetadata::Supported(
            t,
            decoded_name,
        ),
        spec_class_of(class_id as int) is None ==> (m matches AssetMetadata::Unsupported(l)
            && l@ == spec_unsupported_label(class_label@)),
{
    match classify_class(class_id) {
        Some(t) => AssetMetadata::Supported(t, decoded_name),
        None => AssetMetadata::Unsupported(unsupported_label(class_label)),
    }
}

} // verus!
