//! The crate's error type.

use vstd::prelude::*;

use crate::identity::{Api, Spec};
use crate::text::IntErrorKind;

verus! {

/// Everything that can go wrong in the verified core, each variant carrying
/// the offending input.
#[derive(Debug)]
pub enum Error {
    /// An `--api` name that is not a known API.
    UnknownApi { name: String },
    /// Generation was asked for without `--api`.
    MissingApi,
    /// An `--api` entry with an empty name (`=1.0`).
    EmptyApiName,
    /// `gl` without a profile.
    GlProfileRequired,
    /// `gl` with a profile other than `core` or `compatibility`.
    UnknownGlProfile { profile: String },
    /// A profile on an API other than `gl`.
    ProfileNotAllowed { api: Api, profile: String },
    /// A version without a `.` separating major and minor.
    InvalidVersion { text: String },
    /// A version part that is not a decimal `u32`.
    InvalidInteger { kind: IntErrorKind },
    /// A C declarator outside the registry grammar.
    Declarator { kind: DeclErrorKind, input: String },
    /// A C preprocessor condition with no Rust `cfg` mapping.
    NoCfgMapping { cond: String },
    /// A Vulkan command scope name outside the known four.
    UnknownScope { scope: String },
    /// A `(~N...)` Vulkan constant with an unknown suffix.
    VkConstForm { digits: String, suffix: String },
    /// A Vulkan constant literal outside the known forms.
    VkConstLiteral { literal: String },
    /// An `<enum>` element without a name.
    EnumNoName,
    /// An `<enums>` block declaring a typed group without a name.
    GroupNoName,
    /// An `<enum>` with `offset=` but no extension number to apply it to.
    OffsetWithoutExtnumber { name: String },
    /// An `<enum>` whose `bitpos=` is outside a 64-bit value.
    BitposTooWide { pos: u32 },
    /// An extension enum required twice with different values.
    ConflictingEnum { name: String },
    /// A registry document of `spec` that is not usable XML: the primary
    /// (`supplemental` is `None`) or the supplemental at that index.
    Xml { spec: Spec, supplemental: Option<usize>, reason: String },
    /// A Vulkan declarator base from the video-codec headers.
    StdVideoBase { base: String },
    /// A Vulkan declarator base that is no scalar, defined type or
    /// platform type.
    UnknownBase { base: String },
    /// A typedef target that is no scalar, defined type or platform type.
    TypedefTarget { base: String },
    /// A struct member of `owner` whose declarator base is refused: a
    /// video-codec type (`video`) or else an unknown one.
    InMember { owner: String, member: String, video: bool, base: String },
    /// A conditional typedef whose arms map to different Rust types but
    /// that is not one guarded arm and its `#else`.
    TypedefArity { name: String, arms: usize },
    /// A conditional typedef whose differing arms start without a
    /// condition.
    TypedefNoCondition { name: String },
    /// A bundled blob the raw-DEFLATE decoder reports an error for.
    BlobInflate,
    /// A bundled blob that inflates to bytes that are not UTF-8.
    BlobNotUtf8,
}

/// What is wrong with a C declarator.
#[derive(Debug)]
pub enum DeclErrorKind {
    /// `struct` after the base type.
    StructAfterBase,
    /// A second identifier after the declarator name.
    ExtraIdent { word: String },
    /// `*` before any base type.
    StarBeforeBase,
    /// `*` after the declarator name or an array dimension.
    StarAfterName,
    /// `[dim]` before any base type.
    DimBeforeBase,
    /// A bitfield width before the base type, or a second one.
    MisplacedBitfield,
    /// No base type at all.
    NoBase,
    /// `[` without a closing `]`.
    Unterminated,
    /// An array dimension that is not an integer or identifier.
    BadDim { dim: String },
    /// A bitfield width that is not a `u32`.
    BadBitfield { digits: String },
    /// A character outside the declarator grammar.
    UnexpectedChar { c: char },
}

/// The content of a [`DeclErrorKind`].
pub enum DeclFault {
    StructAfterBase,
    ExtraIdent(Seq<char>),
    StarBeforeBase,
    StarAfterName,
    DimBeforeBase,
    MisplacedBitfield,
    NoBase,
    Unterminated,
    BadDim(Seq<char>),
    BadBitfield(Seq<char>),
    UnexpectedChar(char),
}

impl View for DeclErrorKind {
    type V = DeclFault;

    open spec fn view(&self) -> DeclFault {
        match self {
            DeclErrorKind::StructAfterBase => DeclFault::StructAfterBase,
            DeclErrorKind::ExtraIdent { word } => DeclFault::ExtraIdent(word@),
            DeclErrorKind::StarBeforeBase => DeclFault::StarBeforeBase,
            DeclErrorKind::StarAfterName => DeclFault::StarAfterName,
            DeclErrorKind::DimBeforeBase => DeclFault::DimBeforeBase,
            DeclErrorKind::MisplacedBitfield => DeclFault::MisplacedBitfield,
            DeclErrorKind::NoBase => DeclFault::NoBase,
            DeclErrorKind::Unterminated => DeclFault::Unterminated,
            DeclErrorKind::BadDim { dim } => DeclFault::BadDim(dim@),
            DeclErrorKind::BadBitfield { digits } => DeclFault::BadBitfield(digits@),
            DeclErrorKind::UnexpectedChar { c } => DeclFault::UnexpectedChar(*c),
        }
    }
}

/// The message of a declarator error on `input`.
pub open spec fn decl_fault_text(k: DeclFault, input: Seq<char>) -> Seq<char> {
    let at = " in C declarator '"@ + input + "'"@;
    match k {
        DeclFault::StructAfterBase => "'struct' after base type"@ + at,
        DeclFault::ExtraIdent(w) => "unexpected identifier '"@ + w + "' after declarator name"@ + at,
        DeclFault::StarBeforeBase => "'*' before base type"@ + at,
        DeclFault::StarAfterName => "'*' after declarator name"@ + at,
        DeclFault::DimBeforeBase => "array dimension before base type"@ + at,
        DeclFault::MisplacedBitfield => "misplaced bitfield width"@ + at,
        DeclFault::NoBase => "no base type"@ + at,
        DeclFault::Unterminated => "unterminated '['"@ + at,
        DeclFault::BadDim(d) => "array dimension '"@ + d + "' is not an integer or identifier"@ + at,
        DeclFault::BadBitfield(d) => "bitfield width '"@ + d + "' is not an integer"@ + at,
        DeclFault::UnexpectedChar(c) => "unexpected character '"@ + seq![c] + "'"@ + at,
    }
}

/// The mathematical content of an [`Error`]: its variant and the text it
/// carries.
pub enum Fault {
    UnknownApi(Seq<char>),
    MissingApi,
    EmptyApiName,
    GlProfileRequired,
    UnknownGlProfile(Seq<char>),
    ProfileNotAllowed(Api, Seq<char>),
    InvalidVersion(Seq<char>),
    InvalidInteger(IntErrorKind),
    Declarator(DeclFault, Seq<char>),
    NoCfgMapping(Seq<char>),
    UnknownScope(Seq<char>),
    VkConstForm(Seq<char>, Seq<char>),
    VkConstLiteral(Seq<char>),
    EnumNoName,
    GroupNoName,
    OffsetWithoutExtnumber(Seq<char>),
    BitposTooWide(u32),
    ConflictingEnum(Seq<char>),
    Xml(Spec, Option<usize>, Seq<char>),
    StdVideoBase(Seq<char>),
    UnknownBase(Seq<char>),
    TypedefTarget(Seq<char>),
    InMember(Seq<char>, Seq<char>, bool, Seq<char>),
    TypedefArity(Seq<char>, usize),
    TypedefNoCondition(Seq<char>),
    BlobInflate,
    BlobNotUtf8,
}

impl View for Error {
    type V = Fault;

    open spec fn view(&self) -> Fault {
        match self {
            Error::UnknownApi { name } => Fault::UnknownApi(name@),
            Error::MissingApi => Fault::MissingApi,
            Error::EmptyApiName => Fault::EmptyApiName,
            Error::GlProfileRequired => Fault::GlProfileRequired,
            Error::UnknownGlProfile { profile } => Fault::UnknownGlProfile(profile@),
            Error::ProfileNotAllowed { api, profile } => Fault::ProfileNotAllowed(*api, profile@),
            Error::InvalidVersion { text } => Fault::InvalidVersion(text@),
            Error::InvalidInteger { kind } => Fault::InvalidInteger(*kind),
            Error::Declarator { kind, input } => Fault::Declarator(kind@, input@),
            Error::NoCfgMapping { cond } => Fault::NoCfgMapping(cond@),
            Error::UnknownScope { scope } => Fault::UnknownScope(scope@),
            Error::VkConstForm { digits, suffix } => Fault::VkConstForm(digits@, suffix@),
            Error::VkConstLiteral { literal } => Fault::VkConstLiteral(literal@),
            Error::EnumNoName => Fault::EnumNoName,
            Error::GroupNoName => Fault::GroupNoName,
            Error::OffsetWithoutExtnumber { name } => Fault::OffsetWithoutExtnumber(name@),
            Error::BitposTooWide { pos } => Fault::BitposTooWide(*pos),
            Error::ConflictingEnum { name } => Fault::ConflictingEnum(name@),
            Error::Xml { spec, supplemental, reason } => Fault::Xml(*spec, *supplemental, reason@),
            Error::StdVideoBase { base } => Fault::StdVideoBase(base@),
            Error::UnknownBase { base } => Fault::UnknownBase(base@),
            Error::TypedefTarget { base } => Fault::TypedefTarget(base@),
            Error::InMember { owner, member, video, base } => Fault::InMember(owner@, member@, *video, base@),
            Error::TypedefArity { name, arms } => Fault::TypedefArity(name@, *arms),
            Error::TypedefNoCondition { name } => Fault::TypedefNoCondition(name@),
            Error::BlobInflate => Fault::BlobInflate,
            Error::BlobNotUtf8 => Fault::BlobNotUtf8,
        }
    }
}

/// The text `core::num::ParseIntError` displays for each kind.
pub open spec fn int_error_text(k: IntErrorKind) -> Seq<char> {
    match k {
        IntErrorKind::Empty => "cannot parse integer from empty string"@,
        IntErrorKind::InvalidDigit => "invalid digit found in string"@,
        IntErrorKind::PosOverflow => "number too large to fit in target type"@,
    }
}

/// The message of a refused declarator base: a video-codec type or an
/// unknown one.
pub open spec fn base_fault_text(video: bool, b: Seq<char>) -> Seq<char> {
    if video {
        "base type '"@ + b
            + "' lives in the vk_video headers, which the Rust backend cannot emit yet \u{2014} exclude the video-codec extensions via --extensions to generate this loader"@
    } else {
        "base type '"@ + b + "' is not an ABI scalar, a defined Vulkan type, or a known platform type"@
    }
}

/// The message an error prints.
pub open spec fn fault_text(f: Fault) -> Seq<char> {
    match f {
        Fault::UnknownApi(n) => "unknown API '"@ + n
            + "' (expected gl, glcore, gles1, gles2, egl, glx, wgl, or vk)"@,
        Fault::MissingApi => "--api is required for generation"@,
        Fault::EmptyApiName => "empty API name in --api argument"@,
        Fault::GlProfileRequired =>
            "API 'gl' requires a profile: use gl:core or gl:compatibility (e.g. gl:core=3.3)"@,
        Fault::UnknownGlProfile(p) => "unknown GL profile '"@ + p
            + "' (expected core or compatibility)"@,
        Fault::ProfileNotAllowed(a, p) => "API '"@ + a.name() + "' does not take a profile (got ':"@
            + p + "')"@,
        Fault::InvalidVersion(v) => "invalid version '"@ + v + "', expected major.minor"@,
        Fault::InvalidInteger(k) => int_error_text(k),
        Fault::Declarator(k, input) => decl_fault_text(k, input),
        Fault::NoCfgMapping(c) => "no cfg mapping for C preprocessor condition '"@ + c + "'"@,
        Fault::UnknownScope(s) => "unknown Vulkan command scope '"@ + s + "'"@,
        Fault::VkConstForm(d, x) => "unrecognized Vulkan constant form '(~"@ + d + x + ")'"@,
        Fault::VkConstLiteral(t) => "unrecognized Vulkan constant literal '"@ + t + "'"@,
        Fault::EnumNoName => "<enum> element has no name"@,
        Fault::GroupNoName => "<enums> block has no name attribute"@,
        Fault::OffsetWithoutExtnumber(n) => "enum '"@ + n + "' has offset but no extnumber is available"@,
        Fault::BitposTooWide(p) => "bit position "@ + crate::text::decimal(p as nat) + " does not fit a 64-bit value"@,
        Fault::ConflictingEnum(n) => "extension enum '"@ + n + "' required multiple times with different values"@,
        Fault::Xml(s, which, reason) => match which {
            None => "parsing primary "@ + s.name() + " XML: "@ + reason,
            Some(i) => "parsing supplemental "@ + s.name() + " XML #"@ + crate::text::decimal(i as nat) + ": "@ + reason,
        },
        Fault::InMember(o, m, v, b) => o + " member '"@ + m + "': "@ + base_fault_text(v, b),
        Fault::StdVideoBase(b) => "base type '"@ + b
            + "' lives in the vk_video headers, which the Rust backend cannot emit yet \u{2014} exclude the video-codec extensions via --extensions to generate this loader"@,
        Fault::UnknownBase(b) => "base type '"@ + b + "' is not an ABI scalar, a defined Vulkan type, or a known platform type"@,
        Fault::TypedefTarget(b) => "typedef target '"@ + b
            + "' is neither an ABI scalar, a type defined in this module, nor a known platform type"@,
        Fault::TypedefArity(n, k) => "typedef '"@ + n + "' has "@ + crate::text::decimal(k as nat) + " arms; expected 2"@,
        Fault::TypedefNoCondition(n) => "typedef '"@ + n + "': first arm of a differing pair has no condition"@,
        Fault::BlobInflate => "bundled blob failed to inflate \u{2014} corrupt build artifact"@,
        Fault::BlobNotUtf8 => "bundled blob is not UTF-8 \u{2014} corrupt build artifact"@,
    }
}

impl Error {
    /// The human-readable message (what `Display` prints).
    pub fn message(&self) -> (r: String)
        ensures
            r@ == fault_text(self@),
    {
        match self {
            Error::UnknownApi { name } => "unknown API '".to_owned().concat(name.as_str()).concat(
                "' (expected gl, glcore, gles1, gles2, egl, glx, wgl, or vk)",
            ),
            Error::MissingApi => "--api is required for generation".to_owned(),
            Error::EmptyApiName => "empty API name in --api argument".to_owned(),
            Error::GlProfileRequired =>
                "API 'gl' requires a profile: use gl:core or gl:compatibility (e.g. gl:core=3.3)".to_owned(),
            Error::UnknownGlProfile { profile } => "unknown GL profile '".to_owned().concat(
                profile.as_str(),
            ).concat("' (expected core or compatibility)"),
            Error::ProfileNotAllowed { api, profile } => "API '".to_owned().concat(api.as_str()).concat(
                "' does not take a profile (got ':",
            ).concat(profile.as_str()).concat("')"),
            Error::InvalidVersion { text } => "invalid version '".to_owned().concat(
                text.as_str(),
            ).concat("', expected major.minor"),
            Error::InvalidInteger { kind } => match kind {
                IntErrorKind::Empty => "cannot parse integer from empty string".to_owned(),
                IntErrorKind::InvalidDigit => "invalid digit found in string".to_owned(),
                IntErrorKind::PosOverflow => "number too large to fit in target type".to_owned(),
            },
            Error::Declarator { kind, input } => {
                let at = " in C declarator '".to_owned().concat(input.as_str()).concat("'");
                let head = match kind {
                    DeclErrorKind::StructAfterBase => "'struct' after base type".to_owned(),
                    DeclErrorKind::ExtraIdent { word } => "unexpected identifier '".to_owned().concat(
                        word.as_str(),
                    ).concat("' after declarator name"),
                    DeclErrorKind::StarBeforeBase => "'*' before base type".to_owned(),
                    DeclErrorKind::StarAfterName => "'*' after declarator name".to_owned(),
                    DeclErrorKind::DimBeforeBase => "array dimension before base type".to_owned(),
                    DeclErrorKind::MisplacedBitfield => "misplaced bitfield width".to_owned(),
                    DeclErrorKind::NoBase => "no base type".to_owned(),
                    DeclErrorKind::Unterminated => "unterminated '['".to_owned(),
                    DeclErrorKind::BadDim { dim } => "array dimension '".to_owned().concat(
                        dim.as_str(),
                    ).concat("' is not an integer or identifier"),
                    DeclErrorKind::BadBitfield { digits } => "bitfield width '".to_owned().concat(
                        digits.as_str(),
                    ).concat("' is not an integer"),
                    DeclErrorKind::UnexpectedChar { c } => {
                        let one = crate::text::string_from_chars(&[*c]);
                        "unexpected character '".to_owned().concat(one.as_str()).concat("'")
                    },
                };
                head.concat(at.as_str())
            },
            Error::NoCfgMapping { cond } => "no cfg mapping for C preprocessor condition '".to_owned().concat(
                cond.as_str(),
            ).concat("'"),
            Error::UnknownScope { scope } => "unknown Vulkan command scope '".to_owned().concat(
                scope.as_str(),
            ).concat("'"),
            Error::VkConstForm { digits, suffix } => "unrecognized Vulkan constant form '(~".to_owned().concat(
                digits.as_str(),
            ).concat(suffix.as_str()).concat(")'"),
            Error::VkConstLiteral { literal } => "unrecognized Vulkan constant literal '".to_owned().concat(
                literal.as_str(),
            ).concat("'"),
            Error::EnumNoName => "<enum> element has no name".to_owned(),
            Error::GroupNoName => "<enums> block has no name attribute".to_owned(),
            Error::OffsetWithoutExtnumber { name } => "enum '".to_owned().concat(name.as_str()).concat(
                "' has offset but no extnumber is available",
            ),
            Error::BitposTooWide { pos } => {
                let mut digits: Vec<char> = Vec::new();
                crate::text::push_decimal(&mut digits, *pos as u64);
                let d = crate::text::string_from_chars(digits.as_slice());
                "bit position ".to_owned().concat(d.as_str()).concat(" does not fit a 64-bit value")
            },
            Error::ConflictingEnum { name } => "extension enum '".to_owned().concat(name.as_str()).concat(
                "' required multiple times with different values",
            ),
            Error::Xml { spec, supplemental, reason } => match supplemental {
                None => "parsing primary ".to_owned().concat(spec.as_str()).concat(" XML: ").concat(reason.as_str()),
                Some(i) => {
                    let mut digits: Vec<char> = Vec::new();
                    crate::text::push_decimal(&mut digits, *i as u64);
                    let d = crate::text::string_from_chars(digits.as_slice());
                    "parsing supplemental ".to_owned().concat(spec.as_str()).concat(" XML #").concat(d.as_str()).concat(
                        ": ",
                    ).concat(reason.as_str())
                },
            },
            Error::StdVideoBase { base } => "base type '".to_owned().concat(base.as_str()).concat(
                "' lives in the vk_video headers, which the Rust backend cannot emit yet \u{2014} exclude the video-codec extensions via --extensions to generate this loader",
            ),
            Error::UnknownBase { base } => "base type '".to_owned().concat(base.as_str()).concat(
                "' is not an ABI scalar, a defined Vulkan type, or a known platform type",
            ),
            Error::TypedefTarget { base } => "typedef target '".to_owned().concat(base.as_str()).concat(
                "' is neither an ABI scalar, a type defined in this module, nor a known platform type",
            ),
            Error::InMember { owner, member, video, base } => owner.clone().concat(" member '").concat(
                member.as_str(),
            ).concat("': ").concat(
                if *video {
                    "base type '".to_owned().concat(base.as_str()).concat(
                        "' lives in the vk_video headers, which the Rust backend cannot emit yet \u{2014} exclude the video-codec extensions via --extensions to generate this loader",
                    )
                } else {
                    "base type '".to_owned().concat(base.as_str()).concat(
                        "' is not an ABI scalar, a defined Vulkan type, or a known platform type",
                    )
                }.as_str(),
            ),
            Error::TypedefArity { name, arms } => {
                let mut digits: Vec<char> = Vec::new();
                crate::text::push_decimal(&mut digits, *arms as u64);
                let d = crate::text::string_from_chars(digits.as_slice());
                "typedef '".to_owned().concat(name.as_str()).concat("' has ").concat(d.as_str()).concat(
                    " arms; expected 2",
                )
            },
            Error::TypedefNoCondition { name } => "typedef '".to_owned().concat(name.as_str()).concat(
                "': first arm of a differing pair has no condition",
            ),
            Error::BlobInflate => "bundled blob failed to inflate \u{2014} corrupt build artifact".to_owned(),
            Error::BlobNotUtf8 => "bundled blob is not UTF-8 \u{2014} corrupt build artifact".to_owned(),
        }
    }
}

} // verus!
