//! Typed identity for APIs and spec families.
//!
//! Every name an API or spec family goes by — CLI-canonical short name,
//! XML-canonical name, display name, C symbol prefixes, sort order — lives
//! here, on two enums.  The rest of the pipeline holds an [`Api`] or [`Spec`]
//! and asks it for the string form it needs at the boundary.
//!
//! Naming conventions:
//!   - **canonical** — the CLI short form: `"gl"`, `"gles2"`, `"vk"`, ...
//!   - **XML** — the form used by `api=`/`supported=` attributes: identical
//!     to canonical except Vulkan, which the XML calls `"vulkan"`.

use vstd::prelude::*;

use crate::error::Error;
use crate::text::str_eq;

verus! {

/// One requestable API.
#[derive(Debug, Clone, Copy, PartialEq, Eq, Hash, Structural)]
pub enum Api {
    Gl,
    Glcore,
    Gles1,
    Gles2,
    Egl,
    Glx,
    Wgl,
    Vk,
}

/// One spec family — a set of Khronos XML documents parsed together and
/// emitted as one loader.
#[derive(Debug, Clone, Copy, PartialEq, Eq, Hash, Structural)]
pub enum Spec {
    Gl,
    Egl,
    Glx,
    Wgl,
    Vk,
}

// ---------------------------------------------------------------------------
// Api
// ---------------------------------------------------------------------------

impl Api {
    /// CLI-canonical short name.
    pub open spec fn name(self) -> Seq<char> {
        match self {
            Api::Gl => "gl"@,
            Api::Glcore => "glcore"@,
            Api::Gles1 => "gles1"@,
            Api::Gles2 => "gles2"@,
            Api::Egl => "egl"@,
            Api::Glx => "glx"@,
            Api::Wgl => "wgl"@,
            Api::Vk => "vk"@,
        }
    }

    /// XML-canonical name: the canonical name, except `"vulkan"` for Vulkan.
    pub open spec fn xml(self) -> Seq<char> {
        match self {
            Api::Vk => "vulkan"@,
            other => other.name(),
        }
    }

    /// Display name for public C symbols.
    pub open spec fn display_name(self) -> Seq<char> {
        match self {
            Api::Gl | Api::Glcore => "GL"@,
            Api::Gles1 => "GLES1"@,
            Api::Gles2 => "GLES2"@,
            Api::Egl => "EGL"@,
            Api::Glx => "GLX"@,
            Api::Wgl => "WGL"@,
            Api::Vk => "Vulkan"@,
        }
    }

    /// The spec family this API's definitions live in.
    pub open spec fn family(self) -> Spec {
        match self {
            Api::Gl | Api::Glcore | Api::Gles1 | Api::Gles2 => Spec::Gl,
            Api::Egl => Spec::Egl,
            Api::Glx => Spec::Glx,
            Api::Wgl => Spec::Wgl,
            Api::Vk => Spec::Vk,
        }
    }

    /// Position in merged-build ordering: GL first, then GLES, etc.
    pub open spec fn order(self) -> u8 {
        match self {
            Api::Gl | Api::Glcore => 0,
            Api::Gles1 => 1,
            Api::Gles2 => 2,
            Api::Egl => 3,
            Api::Glx => 4,
            Api::Wgl => 5,
            Api::Vk => 6,
        }
    }

    /// Prefix of this API's feature names.
    pub open spec fn feature_prefix(self) -> Seq<char> {
        match self {
            Api::Gl | Api::Glcore | Api::Gles1 | Api::Gles2 => "GL_"@,
            Api::Egl => "EGL_"@,
            Api::Glx => "GLX_"@,
            Api::Wgl => "WGL_"@,
            Api::Vk => "VK_"@,
        }
    }

    /// Parse a CLI-supplied API name.  Accepts the XML-canonical `"vulkan"`
    /// as an alias for `"vk"`; anything else is an [`Error::UnknownApi`].
    pub fn from_cli(name: &str) -> (r: Result<Api, Error>)
        ensures
            match api_named(name@) {
                Some(a) => r == Ok::<Api, Error>(a),
                None => r matches Err(e) && e@ == crate::error::Fault::UnknownApi(name@),
            },
    {
        if str_eq(name, "gl") {
            Ok(Api::Gl)
        } else if str_eq(name, "glcore") {
            Ok(Api::Glcore)
        } else if str_eq(name, "gles1") {
            Ok(Api::Gles1)
        } else if str_eq(name, "gles2") {
            Ok(Api::Gles2)
        } else if str_eq(name, "egl") {
            Ok(Api::Egl)
        } else if str_eq(name, "glx") {
            Ok(Api::Glx)
        } else if str_eq(name, "wgl") {
            Ok(Api::Wgl)
        } else if str_eq(name, "vk") || str_eq(name, "vulkan") {
            Ok(Api::Vk)
        } else {
            Err(Error::UnknownApi { name: name.to_owned() })
        }
    }

    /// CLI-canonical short name — gloam's internal identity string.
    pub fn as_str(self) -> (r: &'static str)
        ensures
            r@ == self.name(),
    {
        match self {
            Api::Gl => "gl",
            Api::Glcore => "glcore",
            Api::Gles1 => "gles1",
            Api::Gles2 => "gles2",
            Api::Egl => "egl",
            Api::Glx => "glx",
            Api::Wgl => "wgl",
            Api::Vk => "vk",
        }
    }

    /// XML-canonical name, as used in `api=`/`supported=` attributes.
    /// Differs from [`Self::as_str`] only for Vulkan (`"vulkan"`).
    pub fn xml_name(self) -> (r: &'static str)
        ensures
            r@ == self.xml(),
    {
        match self {
            Api::Vk => "vulkan",
            other => other.as_str(),
        }
    }

    /// Display name for public C symbols, e.g. `gloamLoadGLES2Context`.
    pub fn display(self) -> (r: &'static str)
        ensures
            r@ == self.display_name(),
    {
        match self {
            Api::Gl | Api::Glcore => "GL",
            Api::Gles1 => "GLES1",
            Api::Gles2 => "GLES2",
            Api::Egl => "EGL",
            Api::Glx => "GLX",
            Api::Wgl => "WGL",
            Api::Vk => "Vulkan",
        }
    }

    /// The spec family this API's definitions live in.
    pub fn spec(self) -> (r: Spec)
        ensures
            r == self.family(),
    {
        match self {
            Api::Gl | Api::Glcore | Api::Gles1 | Api::Gles2 => Spec::Gl,
            Api::Egl => Spec::Egl,
            Api::Glx => Spec::Glx,
            Api::Wgl => Spec::Wgl,
            Api::Vk => Spec::Vk,
        }
    }

    /// Sorting key for API ordering in merged builds: GL first, then GLES, etc.
    pub fn sort_order(self) -> (r: u8)
        ensures
            r == self.order(),
    {
        match self {
            Api::Gl | Api::Glcore => 0,
            Api::Gles1 => 1,
            Api::Gles2 => 2,
            Api::Egl => 3,
            Api::Glx => 4,
            Api::Wgl => 5,
            Api::Vk => 6,
        }
    }

    /// Prefix stripped from feature names to get the short version name,
    /// e.g. `"GL_VERSION_3_3"` → `"VERSION_3_3"`.
    pub fn version_prefix(self) -> (r: &'static str)
        ensures
            r@ == self.feature_prefix(),
    {
        match self {
            Api::Gl | Api::Glcore | Api::Gles1 | Api::Gles2 => "GL_",
            Api::Egl => "EGL_",
            Api::Glx => "GLX_",
            Api::Wgl => "WGL_",
            Api::Vk => "VK_",
        }
    }

    /// The canonical name as an owned string (what `Display` prints).
    pub fn to_text(self) -> (r: String)
        ensures
            r@ == self.name(),
    {
        self.as_str().to_owned()
    }
}

/// The API a CLI name denotes: a canonical name, or `"vulkan"` for Vulkan.
pub open spec fn api_named(name: Seq<char>) -> Option<Api> {
    if name == "gl"@ {
        Some(Api::Gl)
    } else if name == "glcore"@ {
        Some(Api::Glcore)
    } else if name == "gles1"@ {
        Some(Api::Gles1)
    } else if name == "gles2"@ {
        Some(Api::Gles2)
    } else if name == "egl"@ {
        Some(Api::Egl)
    } else if name == "glx"@ {
        Some(Api::Glx)
    } else if name == "wgl"@ {
        Some(Api::Wgl)
    } else if name == "vk"@ || name == "vulkan"@ {
        Some(Api::Vk)
    } else {
        None
    }
}

/// `token` with `"vulkan"` normalized to `"vk"`.
pub open spec fn canonical_token(token: Seq<char>) -> Seq<char> {
    if token == "vulkan"@ {
        "vk"@
    } else {
        token
    }
}

/// Normalize an XML api token to its CLI-canonical form: `"vulkan"` → `"vk"`,
/// everything else unchanged.  XML tokens are an open set (e.g.
/// `"vulkansc"`), matched against canonical names without parsing them into
/// [`Api`].
pub fn canonical_api_name(token: &str) -> (r: &str)
    ensures
        r@ == canonical_token(token@),
{
    if str_eq(token, "vulkan") {
        "vk"
    } else {
        token
    }
}

// ---------------------------------------------------------------------------
// Spec
// ---------------------------------------------------------------------------

impl Spec {
    /// Canonical spec name.
    pub open spec fn name(self) -> Seq<char> {
        match self {
            Spec::Gl => "gl"@,
            Spec::Egl => "egl"@,
            Spec::Glx => "glx"@,
            Spec::Wgl => "wgl"@,
            Spec::Vk => "vk"@,
        }
    }

    /// Human-readable display name.
    pub open spec fn display_name(self) -> Seq<char> {
        match self {
            Spec::Gl => "GL"@,
            Spec::Egl => "EGL"@,
            Spec::Glx => "GLX"@,
            Spec::Wgl => "WGL"@,
            Spec::Vk => "Vulkan"@,
        }
    }

    /// PFN typedef prefix.
    pub open spec fn pfn(self) -> Seq<char> {
        match self {
            Spec::Gl => "PFNGL"@,
            Spec::Egl => "PFNEGL"@,
            Spec::Glx => "PFNGLX"@,
            Spec::Wgl => "PFNWGL"@,
            Spec::Vk => "PFN_"@,
        }
    }

    /// Command-name prefix.
    pub open spec fn command_prefix(self) -> Seq<char> {
        match self {
            Spec::Gl => "gl"@,
            Spec::Egl => "egl"@,
            Spec::Glx => "glX"@,
            Spec::Wgl => "wgl"@,
            Spec::Vk => "vk"@,
        }
    }

    /// The spec family a name denotes, or `None` for any other string.
    pub fn from_name(name: &str) -> (r: Option<Spec>)
        ensures
            r == spec_named(name@),
    {
        if str_eq(name, "gl") {
            Some(Spec::Gl)
        } else if str_eq(name, "egl") {
            Some(Spec::Egl)
        } else if str_eq(name, "glx") {
            Some(Spec::Glx)
        } else if str_eq(name, "wgl") {
            Some(Spec::Wgl)
        } else if str_eq(name, "vk") {
            Some(Spec::Vk)
        } else {
            None
        }
    }

    /// Canonical spec name: file stems, registry lookups.
    pub fn as_str(self) -> (r: &'static str)
        ensures
            r@ == self.name(),
    {
        match self {
            Spec::Gl => "gl",
            Spec::Egl => "egl",
            Spec::Glx => "glx",
            Spec::Wgl => "wgl",
            Spec::Vk => "vk",
        }
    }

    /// Human-readable display name, e.g. `"Vulkan"`.
    pub fn display(self) -> (r: &'static str)
        ensures
            r@ == self.display_name(),
    {
        match self {
            Spec::Gl => "GL",
            Spec::Egl => "EGL",
            Spec::Glx => "GLX",
            Spec::Wgl => "WGL",
            Spec::Vk => "Vulkan",
        }
    }

    /// C context struct name, e.g. `"GloamGLContext"`, `"GloamVulkanContext"`.
    pub fn context_name(self) -> (r: String)
        ensures
            r@ == "Gloam"@ + self.display_name() + "Context"@,
    {
        let s = "Gloam".to_owned();
        let s = s.concat(self.display());
        s.concat("Context")
    }

    /// Prefix for PFN typedef names.
    pub fn pfn_prefix(self) -> (r: &'static str)
        ensures
            r@ == self.pfn(),
    {
        match self {
            Spec::Gl => "PFNGL",
            Spec::Egl => "PFNEGL",
            Spec::Glx => "PFNGLX",
            Spec::Wgl => "PFNWGL",
            Spec::Vk => "PFN_",
        }
    }

    /// Prefix stripped from command names to get the short (struct member)
    /// name.  Case matters: GLX commands are `glX*`.
    pub fn name_prefix(self) -> (r: &'static str)
        ensures
            r@ == self.command_prefix(),
    {
        match self {
            Spec::Gl => "gl",
            Spec::Egl => "egl",
            Spec::Glx => "glX",
            Spec::Wgl => "wgl",
            Spec::Vk => "vk",
        }
    }

    pub fn is_vulkan(self) -> (r: bool)
        ensures
            r == (self == Spec::Vk),
    {
        self == Spec::Vk
    }

    /// The canonical name as an owned string (what `Display` prints).
    pub fn to_text(self) -> (r: String)
        ensures
            r@ == self.name(),
    {
        self.as_str().to_owned()
    }
}

/// The spec family a canonical spec name denotes.
pub open spec fn spec_named(name: Seq<char>) -> Option<Spec> {
    if name == "gl"@ {
        Some(Spec::Gl)
    } else if name == "egl"@ {
        Some(Spec::Egl)
    } else if name == "glx"@ {
        Some(Spec::Glx)
    } else if name == "wgl"@ {
        Some(Spec::Wgl)
    } else if name == "vk"@ {
        Some(Spec::Vk)
    } else {
        None
    }
}

// ---------------------------------------------------------------------------
// Laws
// ---------------------------------------------------------------------------

/// The API and spec name literals are pairwise distinct: their lengths and
/// first differing characters.
proof fn lemma_name_literals()
    ensures
        "gl"@.len() == 2 && "vk"@.len() == 2,
        "egl"@.len() == 3 && "glx"@.len() == 3 && "wgl"@.len() == 3,
        "gles1"@.len() == 5 && "gles2"@.len() == 5,
        "glcore"@.len() == 6 && "vulkan"@.len() == 6,
        "gl"@[0] != "vk"@[0],
        "egl"@[0] != "glx"@[0] && "egl"@[0] != "wgl"@[0] && "glx"@[0] != "wgl"@[0],
        "gles1"@[4] != "gles2"@[4],
        "glcore"@[0] != "vulkan"@[0],
{
    reveal_strlit("gl");
    reveal_strlit("glcore");
    reveal_strlit("gles1");
    reveal_strlit("gles2");
    reveal_strlit("egl");
    reveal_strlit("glx");
    reveal_strlit("wgl");
    reveal_strlit("vk");
    reveal_strlit("vulkan");
}

/// Every API's canonical name and its XML name both parse back to that API
/// through [`Api::from_cli`], and normalizing the XML name yields the
/// canonical name.
pub proof fn lemma_api_names_roundtrip(a: Api)
    ensures
        api_named(a.name()) == Some(a),
        api_named(a.xml()) == Some(a),
        canonical_token(a.xml()) == a.name(),
        a.xml() == a.name() <==> a != Api::Vk,
{
    lemma_name_literals();
}

/// A command-line API name is accepted exactly when it is one of the nine
/// spellings `gl`, `glcore`, `gles1`, `gles2`, `egl`, `glx`, `wgl`, `vk`
/// and `vulkan`; an accepted name gives the API spelled so, but `vulkan`,
/// which gives Vulkan (`vk`); and the message of a refused name starts by
/// quoting it.
pub proof fn lemma_api_cli_names(name: Seq<char>)
    ensures
        api_named(name) is Some <==> (name == "gl"@ || name == "glcore"@ || name == "gles1"@ || name
            == "gles2"@ || name == "egl"@ || name == "glx"@ || name == "wgl"@ || name == "vk"@ || name
            == "vulkan"@),
        api_named(name) matches Some(a) ==> (if name == "vulkan"@ { a == Api::Vk } else { a.name() == name }),
        api_named(name) is None ==> ("unknown API '"@ + name + "'"@).is_prefix_of(
            crate::error::fault_text(crate::error::Fault::UnknownApi(name)),
        ),
{
    lemma_name_literals();
    if api_named(name) is None {
        let head = "unknown API '"@ + name + "'"@;
        let full = crate::error::fault_text(crate::error::Fault::UnknownApi(name));
        let tail = "' (expected gl, glcore, gles1, gles2, egl, glx, wgl, or vk)"@;
        reveal_strlit("' (expected gl, glcore, gles1, gles2, egl, glx, wgl, or vk)");
        reveal_strlit("'");
        assert(full == "unknown API '"@ + name + tail);
        assert(head.len() <= full.len());
        assert(full.subrange(0, head.len() as int) =~= head);
    }
}

/// Every spec family's canonical name parses back to that family, and the
/// API-only and XML-only spellings (`"gles2"`, `"vulkan"`) name no family.
pub proof fn lemma_spec_names_roundtrip(s: Spec)
    ensures
        spec_named(s.name()) == Some(s),
        spec_named("gles2"@) is None,
        spec_named("vulkan"@) is None,
{
    lemma_name_literals();
}

/// An API and its spec family agree on the spelling of the canonical name
/// exactly for the families that hold one API (EGL, GLX, WGL, Vulkan); the
/// four GL-family APIs all map to the `gl` family.
pub proof fn lemma_api_family_names(a: Api)
    ensures
        a.family() == Spec::Gl <==> (a == Api::Gl || a == Api::Glcore || a == Api::Gles1 || a == Api::Gles2),
        a.family() != Spec::Gl ==> a.family().name() == a.name(),
{
}

} // verus!
