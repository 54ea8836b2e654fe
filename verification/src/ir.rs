//! The IR produced by the XML parser: "raw" records of what the registry
//! says, before feature-set resolution or index assignment.

use vstd::prelude::*;
use vstd::std_specs::cmp::PartialOrdSpecImpl;

use crate::text::{decimal, push_decimal, string_from_chars};
use indexmap::IndexMap;

verus! {

// ---------------------------------------------------------------------------
// Version
// ---------------------------------------------------------------------------

/// An API version, `major.minor`.
#[derive(Debug, Clone, PartialEq, Eq, Hash, Structural)]
pub struct Version {
    pub major: u32,
    pub minor: u32,
}

/// `(major << 8) | minor` over the `u16` truncations of both parts.
pub open spec fn pack(major: u32, minor: u32) -> u16 {
    ((major as u16) << 8u16) | (minor as u16)
}

impl Version {
    pub fn new(major: u32, minor: u32) -> (r: Self)
        ensures
            r.major == major,
            r.minor == minor,
    {
        Self { major, minor }
    }

    /// Pack into a u16 for cheap comparisons: (major << 8) | minor.
    pub fn packed(&self) -> (r: u16)
        ensures
            r == pack(self.major, self.minor),
    {
        ((self.major as u16) << 8u16) | (self.minor as u16)
    }

    /// `"major.minor"` (what `Display` prints).
    pub fn to_text(&self) -> (r: String)
        ensures
            r@ == decimal(self.major as nat) + seq!['.'] + decimal(self.minor as nat),
    {
        let mut out: Vec<char> = Vec::new();
        push_decimal(&mut out, self.major as u64);
        out.push('.');
        push_decimal(&mut out, self.minor as u64);
        string_from_chars(out.as_slice())
    }
}

// ---------------------------------------------------------------------------
// Types, enums, commands
// ---------------------------------------------------------------------------

/// A single `<type>` element, before any deduplication.  Variants of the
/// same name differing by `api=` are kept as separate entries.
#[derive(Debug, Clone)]
pub struct RawType {
    pub name: String,
    pub api: Option<String>,
    /// "basetype", "bitmask", "define", "enum", "funcpointer", "group",
    /// "handle", "include", "struct", "union", or empty.
    pub category: String,
    /// Name of another type this one depends on (`requires=`).
    pub requires: Option<String>,
    /// If present, this type is an alias of another.
    pub alias: Option<String>,
    /// 32 or 64 for Vulkan bitmask types.
    pub bitwidth: Option<u32>,
    /// The fully-assembled C text, ready to emit verbatim.
    pub raw_c: String,
    /// Platform protection macro (e.g. "VK_USE_PLATFORM_WIN32_KHR").
    pub protect: Option<String>,
}

/// A single enum value, from a flat `<enums>` block or an
/// `<enum extends=...>` inside an `<extension>`.
#[derive(Debug, Clone)]
pub struct RawEnum {
    pub name: String,
    /// Computed value (decimal or 0x-hex).  None for pure alias enums.
    pub value: Option<String>,
    pub api: Option<String>,
    /// "u" or "ull" etc., as in the XML `type=` attribute.
    pub type_suffix: Option<String>,
    /// This enum is an alias of another enum name.
    pub alias: Option<String>,
    pub comment: String,
    /// For Vulkan typed enums: the enum type this value belongs to.
    pub parent_type: Option<String>,
}

/// A Vulkan typed enum group (`<enums type="enum"|"bitmask">`).
#[derive(Debug, Clone)]
pub struct RawEnumGroup {
    pub name: String,
    pub bitwidth: Option<u32>,
    pub values: Vec<RawEnum>,
}

/// A single parsed command parameter.
#[derive(Debug, Clone)]
pub struct RawParam {
    pub name: String,
    /// Full C type text for the parameter (e.g. "const GLubyte *").
    pub type_raw: String,
    /// The base type name, used for Vulkan command-scope inference.
    pub base_name: String,
    /// Only set for multi-API commands where a param differs between APIs.
    pub api: Option<String>,
}

/// A single parsed command.
#[derive(Debug, Clone)]
pub struct RawCommand {
    pub name: String,
    pub api: Option<String>,
    /// C return type text (e.g. "void", "const GLubyte *").
    pub return_type: String,
    pub params: Vec<RawParam>,
    /// If non-None, this command is an alias of the named command.
    pub alias: Option<String>,
}

/// The content of a [`RawEnum`].
#[verifier::ext_equal]
pub struct EnumView {
    pub name: Seq<char>,
    pub value: Option<Seq<char>>,
    pub api: Option<Seq<char>>,
    pub type_suffix: Option<Seq<char>>,
    pub alias: Option<Seq<char>>,
    pub comment: Seq<char>,
    pub parent_type: Option<Seq<char>>,
}

/// The content of a [`RawType`].
pub struct TypeView {
    pub name: Seq<char>,
    pub api: Option<Seq<char>>,
    pub category: Seq<char>,
    pub requires: Option<Seq<char>>,
    pub alias: Option<Seq<char>>,
    pub bitwidth: Option<u32>,
    pub raw_c: Seq<char>,
    pub protect: Option<Seq<char>>,
}

impl View for RawType {
    type V = TypeView;

    open spec fn view(&self) -> TypeView {
        TypeView {
            name: self.name@,
            api: opt_text(self.api),
            category: self.category@,
            requires: opt_text(self.requires),
            alias: opt_text(self.alias),
            bitwidth: self.bitwidth,
            raw_c: self.raw_c@,
            protect: opt_text(self.protect),
        }
    }
}

impl View for RawEnum {
    type V = EnumView;

    open spec fn view(&self) -> EnumView {
        EnumView {
            name: self.name@,
            value: opt_text(self.value),
            api: opt_text(self.api),
            type_suffix: opt_text(self.type_suffix),
            alias: opt_text(self.alias),
            comment: self.comment@,
            parent_type: opt_text(self.parent_type),
        }
    }
}

/// The content of a [`RawEnumGroup`].
#[verifier::ext_equal]
pub struct GroupView {
    pub name: Seq<char>,
    pub bitwidth: Option<u32>,
    pub values: Seq<EnumView>,
}

impl View for RawEnumGroup {
    type V = GroupView;

    open spec fn view(&self) -> GroupView {
        GroupView { name: self.name@, bitwidth: self.bitwidth, values: self.values@.map_values(|e: RawEnum| e@) }
    }
}

impl RawEnum {
    /// A copy with the same content.
    pub fn copy(&self) -> (r: RawEnum)
        ensures
            r@ == self@,
    {
        RawEnum {
            name: self.name.clone(),
            value: copy_opt(&self.value),
            api: copy_opt(&self.api),
            type_suffix: copy_opt(&self.type_suffix),
            alias: copy_opt(&self.alias),
            comment: self.comment.clone(),
            parent_type: copy_opt(&self.parent_type),
        }
    }
}

/// The content of a [`RawParam`].
#[verifier::ext_equal]
pub struct ParamView {
    pub name: Seq<char>,
    pub type_raw: Seq<char>,
    pub base_name: Seq<char>,
    pub api: Option<Seq<char>>,
}

impl View for RawParam {
    type V = ParamView;

    open spec fn view(&self) -> ParamView {
        ParamView { name: self.name@, type_raw: self.type_raw@, base_name: self.base_name@, api: opt_text(self.api) }
    }
}

/// The content of a [`RawCommand`].
#[verifier::ext_equal]
pub struct CommandView {
    pub name: Seq<char>,
    pub api: Option<Seq<char>>,
    pub return_type: Seq<char>,
    pub params: Seq<ParamView>,
    pub alias: Option<Seq<char>>,
}

impl View for RawCommand {
    type V = CommandView;

    open spec fn view(&self) -> CommandView {
        CommandView {
            name: self.name@,
            api: opt_text(self.api),
            return_type: self.return_type@,
            params: self.params@.map_values(|p: RawParam| p@),
            alias: opt_text(self.alias),
        }
    }
}

impl RawParam {
    /// A copy with the same content.
    pub fn copy(&self) -> (r: RawParam)
        ensures
            r@ == self@,
    {
        RawParam {
            name: self.name.clone(),
            type_raw: self.type_raw.clone(),
            base_name: self.base_name.clone(),
            api: copy_opt(&self.api),
        }
    }
}

/// A copy of a parameter list.
pub fn copy_params(v: &Vec<RawParam>) -> (r: Vec<RawParam>)
    ensures
        r@.map_values(|x: RawParam| x@) == v@.map_values(|x: RawParam| x@),
{
    let mut out: Vec<RawParam> = Vec::new();
    let mut k: usize = 0;
    while k < v.len()
        invariant
            k <= v@.len(),
            out@.map_values(|x: RawParam| x@) == v@.map_values(|x: RawParam| x@).subrange(0, k as int),
        decreases v@.len() - k,
    {
        let c = v[k].copy();
        assert(c@ == v@[k as int]@);
        out.push(c);
        assert(out@.map_values(|x: RawParam| x@) =~= v@.map_values(|x: RawParam| x@).subrange(0, k as int).push(c@));
        assert(v@.map_values(|x: RawParam| x@).subrange(0, k + 1) =~= v@.map_values(|x: RawParam| x@).subrange(0, k as int).push(v@[k as int]@));
        k = k + 1;
    }
    assert(v@.map_values(|x: RawParam| x@).subrange(0, v@.len() as int) =~= v@.map_values(|x: RawParam| x@));
    out
}

/// Vulkan command scope, inferred from the first parameter type.
#[derive(Debug, Clone, Copy, PartialEq, Eq, Structural)]
pub enum CommandScope {
    /// Used exclusively for `vkGetInstanceProcAddr` (must use dlsym).
    Unknown,
    /// First param is absent or not a dispatchable handle.
    Global,
    /// First param is VkInstance or VkPhysicalDevice.
    Instance,
    /// First param is VkDevice, VkQueue, or VkCommandBuffer.
    Device,
}

impl CommandScope {
    /// The C enumerator naming this scope.
    pub open spec fn c_ident(self) -> Seq<char> {
        match self {
            CommandScope::Unknown => "GloamCommandScopeUnknown"@,
            CommandScope::Global => "GloamCommandScopeGlobal"@,
            CommandScope::Instance => "GloamCommandScopeInstance"@,
            CommandScope::Device => "GloamCommandScopeDevice"@,
        }
    }

    pub fn c_name(self) -> (r: &'static str)
        ensures
            r@ == self.c_ident(),
    {
        match self {
            CommandScope::Unknown => "GloamCommandScopeUnknown",
            CommandScope::Global => "GloamCommandScopeGlobal",
            CommandScope::Instance => "GloamCommandScopeInstance",
            CommandScope::Device => "GloamCommandScopeDevice",
        }
    }
}

// ---------------------------------------------------------------------------
// Features and extensions
// ---------------------------------------------------------------------------

/// The items required by one `<require>` block inside a feature or extension.
#[derive(Debug, Clone)]
pub struct Require {
    /// API restriction on this block (None = applies to all).
    pub api: Option<String>,
    /// Profile restriction ("core", "compatibility"), None = all profiles.
    pub profile: Option<String>,
    pub types: Vec<String>,
    pub enums: Vec<String>,
    pub commands: Vec<String>,
}

/// The items removed by one `<remove>` block inside a feature.
#[derive(Debug, Clone)]
pub struct Remove {
    pub profile: Option<String>,
    pub commands: Vec<String>,
    pub enums: Vec<String>,
}

/// A `<feature>` element (a versioned API level).
#[derive(Debug, Clone)]
pub struct RawFeature {
    /// e.g. "GL_VERSION_3_3", "VK_VERSION_1_0"
    pub name: String,
    /// Single API name (a feature with api="gl,gles2" becomes two entries).
    pub api: String,
    pub version: Version,
    pub requires: Vec<Require>,
    pub removes: Vec<Remove>,
}

/// An `<extension>` element.
#[derive(Debug, Clone)]
pub struct RawExtension {
    /// e.g. "GL_ARB_sync"
    pub name: String,
    /// Which API names this extension supports.
    pub supported: Vec<String>,
    pub requires: Vec<Require>,
    /// Platform protection macros (may be multiple).
    pub protect: Vec<String>,
    /// Extension registry number, used for enum offset calculation.
    pub number: Option<u32>,
    /// Names of the extensions (and versions) this one depends on.
    pub depends: Vec<String>,
}

/// The content of a [`Require`].
#[verifier::ext_equal]
pub struct RequireView {
    pub api: Option<Seq<char>>,
    pub profile: Option<Seq<char>>,
    pub types: Seq<Seq<char>>,
    pub enums: Seq<Seq<char>>,
    pub commands: Seq<Seq<char>>,
}

/// The text of an optional string.
pub open spec fn opt_text(o: Option<String>) -> Option<Seq<char>> {
    match o {
        Some(s) => Some(s@),
        None => None,
    }
}

/// The texts of a list of strings.
pub open spec fn texts(v: Vec<String>) -> Seq<Seq<char>> {
    v@.map_values(|s: String| s@)
}

/// Whether `name` is one of the texts of `v`.
pub fn names_contain(v: &Vec<String>, name: &str) -> (r: bool)
    ensures
        r == texts(*v).contains(name@),
{
    let mut k: usize = 0;
    while k < v.len()
        invariant
            k <= v@.len(),
            forall|m: int| 0 <= m < k ==> v@[m]@ != name@,
        decreases v@.len() - k,
    {
        if crate::text::str_eq(v[k].as_str(), name) {
            assert(texts(*v)[k as int] == name@);
            return true;
        }
        k = k + 1;
    }
    proof {
        if texts(*v).contains(name@) {
            let m = choose|m: int| 0 <= m < texts(*v).len() && texts(*v)[m] == name@;
            assert(v@[m]@ == name@);
        }
    }
    false
}

impl View for Require {
    type V = RequireView;

    open spec fn view(&self) -> RequireView {
        RequireView {
            api: opt_text(self.api),
            profile: opt_text(self.profile),
            types: texts(self.types),
            enums: texts(self.enums),
            commands: texts(self.commands),
        }
    }
}

/// The content of a [`Remove`].
#[verifier::ext_equal]
pub struct RemoveView {
    pub profile: Option<Seq<char>>,
    pub commands: Seq<Seq<char>>,
    pub enums: Seq<Seq<char>>,
}

impl View for Remove {
    type V = RemoveView;

    open spec fn view(&self) -> RemoveView {
        RemoveView { profile: opt_text(self.profile), commands: texts(self.commands), enums: texts(self.enums) }
    }
}

/// The content of a [`RawFeature`].
#[verifier::ext_equal]
pub struct FeatureView {
    pub name: Seq<char>,
    pub api: Seq<char>,
    pub version: Version,
    pub requires: Seq<RequireView>,
    pub removes: Seq<RemoveView>,
}

impl View for RawFeature {
    type V = FeatureView;

    open spec fn view(&self) -> FeatureView {
        FeatureView {
            name: self.name@,
            api: self.api@,
            version: self.version,
            requires: self.requires@.map_values(|r: Require| r@),
            removes: self.removes@.map_values(|r: Remove| r@),
        }
    }
}

/// A copy of a list of strings.
pub fn copy_texts(v: &Vec<String>) -> (r: Vec<String>)
    ensures
        texts(r) == texts(*v),
{
    let mut out: Vec<String> = Vec::new();
    let mut k: usize = 0;
    while k < v.len()
        invariant
            k <= v@.len(),
            texts(out) == texts(*v).subrange(0, k as int),
        decreases v@.len() - k,
    {
        let c = v[k].clone();
        assert(c@ == v@[k as int]@);
        let ghost prev = out@;
        out.push(c);
        assert(texts(out) =~= texts(*v).subrange(0, k as int).push(c@));
        assert(texts(*v).subrange(0, k + 1) =~= texts(*v).subrange(0, k as int).push(v@[k as int]@));
        k = k + 1;
    }
    assert(texts(*v).subrange(0, v@.len() as int) =~= texts(*v));
    out
}

/// A copy of an optional string.
pub fn copy_opt(o: &Option<String>) -> (r: Option<String>)
    ensures
        opt_text(r) == opt_text(*o),
{
    match o {
        Some(s) => Some(s.clone()),
        None => None,
    }
}

impl Require {
    /// A copy with the same content.
    pub fn copy(&self) -> (r: Require)
        ensures
            r@ == self@,
    {
        Require {
            api: copy_opt(&self.api),
            profile: copy_opt(&self.profile),
            types: copy_texts(&self.types),
            enums: copy_texts(&self.enums),
            commands: copy_texts(&self.commands),
        }
    }
}

impl Remove {
    /// A copy with the same content.
    pub fn copy(&self) -> (r: Remove)
        ensures
            r@ == self@,
    {
        Remove {
            profile: copy_opt(&self.profile),
            commands: copy_texts(&self.commands),
            enums: copy_texts(&self.enums),
        }
    }
}

/// A copy of a list of requirement blocks.
pub fn copy_requires(v: &Vec<Require>) -> (r: Vec<Require>)
    ensures
        r@.map_values(|x: Require| x@) == v@.map_values(|x: Require| x@),
{
    let mut out: Vec<Require> = Vec::new();
    let mut k: usize = 0;
    while k < v.len()
        invariant
            k <= v@.len(),
            out@.map_values(|x: Require| x@) == v@.map_values(|x: Require| x@).subrange(0, k as int),
        decreases v@.len() - k,
    {
        let c = v[k].copy();
        assert(c@ == v@[k as int]@);
        out.push(c);
        assert(out@.map_values(|x: Require| x@) =~= v@.map_values(|x: Require| x@).subrange(0, k as int).push(c@));
        assert(v@.map_values(|x: Require| x@).subrange(0, k + 1) =~= v@.map_values(|x: Require| x@).subrange(0, k as int).push(v@[k as int]@));
        k = k + 1;
    }
    assert(v@.map_values(|x: Require| x@).subrange(0, v@.len() as int) =~= v@.map_values(|x: Require| x@));
    out
}

/// A copy of a list of removal blocks.
pub fn copy_removes(v: &Vec<Remove>) -> (r: Vec<Remove>)
    ensures
        r@.map_values(|x: Remove| x@) == v@.map_values(|x: Remove| x@),
{
    let mut out: Vec<Remove> = Vec::new();
    let mut k: usize = 0;
    while k < v.len()
        invariant
            k <= v@.len(),
            out@.map_values(|x: Remove| x@) == v@.map_values(|x: Remove| x@).subrange(0, k as int),
        decreases v@.len() - k,
    {
        let c = v[k].copy();
        assert(c@ == v@[k as int]@);
        out.push(c);
        assert(out@.map_values(|x: Remove| x@) =~= v@.map_values(|x: Remove| x@).subrange(0, k as int).push(c@));
        assert(v@.map_values(|x: Remove| x@).subrange(0, k + 1) =~= v@.map_values(|x: Remove| x@).subrange(0, k as int).push(v@[k as int]@));
        k = k + 1;
    }
    assert(v@.map_values(|x: Remove| x@).subrange(0, v@.len() as int) =~= v@.map_values(|x: Remove| x@));
    out
}

/// Ordering of two versions: by their packed values.
pub open spec fn packed_order(a: &Version, b: &Version) -> Option<core::cmp::Ordering> {
    let (x, y) = (pack(a.major, a.minor), pack(b.major, b.minor));
    if x < y {
        Some(core::cmp::Ordering::Less)
    } else if x == y {
        Some(core::cmp::Ordering::Equal)
    } else {
        Some(core::cmp::Ordering::Greater)
    }
}

impl PartialOrd for Version {
    fn partial_cmp(&self, other: &Self) -> (r: Option<core::cmp::Ordering>) {
        let x = self.packed();
        let y = other.packed();
        if x < y {
            Some(core::cmp::Ordering::Less)
        } else if x == y {
            Some(core::cmp::Ordering::Equal)
        } else {
            Some(core::cmp::Ordering::Greater)
        }
    }
}

impl PartialOrdSpecImpl for Version {
    open spec fn obeys_partial_cmp_spec() -> bool {
        true
    }

    open spec fn partial_cmp_spec(&self, other: &Self) -> Option<core::cmp::Ordering> {
        packed_order(self, other)
    }
}

/// For versions whose parts fit a byte, the packed value is
/// `major * 256 + minor`, so comparing packed values orders versions by
/// major, then minor — the order the generated C relies on when it compares
/// packed versions directly.
pub proof fn lemma_packed_order_is_semantic(a: Version, b: Version)
    requires
        a.major < 256 && a.minor < 256,
        b.major < 256 && b.minor < 256,
    ensures
        pack(a.major, a.minor) == a.major * 256 + a.minor,
        pack(b.major, b.minor) == b.major * 256 + b.minor,
        (pack(a.major, a.minor) < pack(b.major, b.minor))
            <==> (a.major < b.major || (a.major == b.major && a.minor < b.minor)),
        (pack(a.major, a.minor) == pack(b.major, b.minor)) <==> a == b,
{
    lemma_pack_small(a.major, a.minor);
    lemma_pack_small(b.major, b.minor);
}

proof fn lemma_pack_small(major: u32, minor: u32)
    requires
        major < 256 && minor < 256,
    ensures
        pack(major, minor) == major * 256 + minor,
{
    assert(((major as u16) << 8u16) | (minor as u16) == major * 256 + minor) by (bit_vector)
        requires
            major < 256 && minor < 256;
}


/// The parsed content of one spec family's registry.
pub struct RawSpec {
    /// The canonical spec name: "gl", "egl", "glx", "wgl", "vk".
    pub spec_name: String,
    /// Platform name → protection macro (Vulkan; empty elsewhere).
    pub platforms: IndexMap<String, String>,
    /// All type definitions, in dependency order.  Several entries may
    /// share a name when their `api=` values differ.
    pub types: Vec<RawType>,
    /// Vulkan typed enum groups.
    pub enum_groups: Vec<RawEnumGroup>,
    /// GL-style flat constants, in declaration order.
    pub flat_enums: IndexMap<String, RawEnum>,
    /// All commands, keyed by name, with alias fixup applied.
    pub commands: IndexMap<String, RawCommand>,
    /// Feature version blocks, sorted by API then version.
    pub features: Vec<RawFeature>,
    /// All extensions of the combined registry.
    pub extensions: Vec<RawExtension>,
}

} // verus!
