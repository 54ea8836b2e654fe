//! Command-line interface: the option record the binary fills in, and the
//! parsing of its `--api`, `--baseline` and `--extensions` arguments.

use vstd::prelude::*;

use crate::error::{Error, Fault};
use crate::identity::{api_named, Api, Spec};
use crate::ir::Version;
use crate::text::{
    find, find_in, parse_u32, parse_u32_spec, pieces, split, split_ranges, str_eq,
    string_between, trim, trim_bounds, chars_of,
};

verus! {

// ---------------------------------------------------------------------------
// Top-level CLI
// ---------------------------------------------------------------------------

/// The parsed command line.
#[derive(Debug)]
pub struct Cli {
    /// Include any extension whose commands or enums were promoted into the
    /// requested core version.
    pub promoted: bool,
    /// Include predecessor extensions of the selected set.
    pub predecessors: bool,
    /// API specifiers: comma-separated `name[:profile][=major.minor]`.
    pub api: Option<String>,
    /// Extension filter: a file path, a comma-separated list, or "all".
    pub extensions: Option<String>,
    /// Baseline API versions, same format as `api`.
    pub baseline: Option<String>,
    /// Merge multiple APIs of the same spec into one output file.
    pub merge: bool,
    /// Directory for generated output files.
    pub out_path: String,
    /// Suppress informational messages on stderr.
    pub quiet: bool,
    /// Fetch XML specs from Khronos remote URLs instead of bundled copies.
    pub fetch: bool,
    /// Manifest whose provenance pins the upstream sources.
    pub lock: Option<String>,
    pub generator: Generator,
}

/// The subcommand.
#[derive(Debug)]
pub enum Generator {
    /// Generate a C loader.
    C(CArgs),
    /// Write a provenance-only snapshot manifest.
    Lock(LockArgs),
}

/// Options of `gloam lock`.
#[derive(Debug)]
pub struct LockArgs {
    /// Output path for the snapshot manifest.
    pub out: String,
}

/// Options of `gloam c`.
#[derive(Debug)]
pub struct CArgs {
    /// Enable bijective function-pointer alias resolution.
    pub alias: bool,
    /// Include a built-in dlopen/LoadLibrary convenience loader layer.
    pub loader: bool,
    /// Use upstream Vulkan-Headers instead of embedding type definitions.
    pub external_headers: bool,
}

// ---------------------------------------------------------------------------
// ExtensionFilter
// ---------------------------------------------------------------------------

/// Parsed extension filter from `--extensions`.
///
/// `selected` is `None` for "all extensions" or `Some(list)` for an explicit
/// set.  `exclude` is a set of names to remove unconditionally, applied as a
/// final veto after all selection passes.  `keep` is a set of names that
/// override baseline exclusion (`--extensions all,GL_ARB_foo`).  `exclude`
/// and `keep` hold each name once.
#[derive(Debug)]
pub struct ExtensionFilter {
    pub selected: Option<Vec<String>>,
    pub exclude: Vec<String>,
    pub keep: Vec<String>,
}

/// The contents of an [`ExtensionFilter`].
#[verifier::ext_equal]
pub struct FilterView {
    pub selected: Option<Seq<Seq<char>>>,
    pub exclude: Set<Seq<char>>,
    pub keep: Set<Seq<char>>,
}

/// The texts of a list of strings.
pub open spec fn texts(v: Seq<String>) -> Seq<Seq<char>> {
    v.map_values(|x: String| x@)
}

impl View for ExtensionFilter {
    type V = FilterView;

    open spec fn view(&self) -> FilterView {
        FilterView {
            selected: match &self.selected {
                Some(v) => Some(texts(v@)),
                None => None,
            },
            exclude: texts(self.exclude@).to_set(),
            keep: texts(self.keep@).to_set(),
        }
    }
}

impl ExtensionFilter {
    /// Each name of `exclude` and of `keep` occurs once.
    pub open spec fn well_formed(&self) -> bool {
        texts(self.exclude@).no_duplicates() && texts(self.keep@).no_duplicates()
    }

    /// No filter — every extension selected, exclude nothing.
    pub fn all() -> (r: Self)
        ensures
            r.well_formed(),
            r@.selected is None,
            r@.exclude == Set::<Seq<char>>::empty(),
            r@.keep == Set::<Seq<char>>::empty(),
    {
        let r = Self { selected: None, exclude: Vec::new(), keep: Vec::new() };
        assert(texts(r.exclude@) =~= Seq::<Seq<char>>::empty());
        assert(texts(r.keep@) =~= Seq::<Seq<char>>::empty());
        r
    }
}

/// ASCII lowercase of `c`.
pub open spec fn lower(c: char) -> char {
    if crate::text::is_upper(c) {
        ((c as int) + 32) as char
    } else {
        c
    }
}

/// `n.eq_ignore_ascii_case("all")`.
pub open spec fn is_all(n: Seq<char>) -> bool {
    n.len() == 3 && lower(n[0]) == 'a' && lower(n[1]) == 'l' && lower(n[2]) == 'l'
}

/// `n` names an exclusion: a `-` prefix.
pub open spec fn is_exclusion(n: Seq<char>) -> bool {
    !is_all(n) && n.len() > 0 && n[0] == '-'
}

/// The trimmed, non-empty pieces, dropping `#` comment lines when reading a
/// file.
pub open spec fn filter_names(parts: Seq<Seq<char>>, from_file: bool) -> Seq<Seq<char>>
    decreases parts.len(),
{
    if parts.len() == 0 {
        Seq::empty()
    } else {
        let n = trim(parts.last());
        let rest = filter_names(parts.drop_last(), from_file);
        if n.len() > 0 && !(from_file && n[0] == '#') {
            rest.push(n)
        } else {
            rest
        }
    }
}

/// The names that select extensions, in order.
pub open spec fn included(names: Seq<Seq<char>>) -> Seq<Seq<char>>
    decreases names.len(),
{
    if names.len() == 0 {
        Seq::empty()
    } else {
        let n = names.last();
        let rest = included(names.drop_last());
        if !is_all(n) && !(n.len() > 0 && n[0] == '-') {
            rest.push(n)
        } else {
            rest
        }
    }
}

/// The excluded names, `-` stripped.
pub open spec fn excluded(names: Seq<Seq<char>>) -> Set<Seq<char>>
    decreases names.len(),
{
    if names.len() == 0 {
        Set::empty()
    } else {
        let n = names.last();
        let rest = excluded(names.drop_last());
        if is_exclusion(n) && n.len() > 1 {
            rest.insert(n.drop_first())
        } else {
            rest
        }
    }
}

/// Whether one of the names is `all` (any ASCII case).
pub open spec fn any_all(names: Seq<Seq<char>>) -> bool {
    exists|i: int| 0 <= i < names.len() && is_all(#[trigger] names[i])
}

/// The filter a list of names describes.  With `all`, the explicit names
/// become baseline-override pins instead of the inclusion list.
pub open spec fn filter_of(names: Seq<Seq<char>>) -> FilterView {
    if any_all(names) {
        FilterView { selected: None, exclude: excluded(names), keep: included(names).to_set() }
    } else {
        FilterView { selected: Some(included(names)), exclude: excluded(names), keep: Set::empty() }
    }
}

/// Every `-X` among the names (with `X` non-empty) excludes `X`, and the
/// exclusions are exactly those: whether or not `all` is listed too.
pub proof fn lemma_filter_exclusions(names: Seq<Seq<char>>)
    ensures
        forall|i: int|
            0 <= i < names.len() && (#[trigger] names[i]).len() > 1 && names[i][0] == '-'
                ==> filter_of(names).exclude.contains(names[i].drop_first()),
        forall|x: Seq<char>|
            #[trigger] filter_of(names).exclude.contains(x) ==> exists|i: int|
                0 <= i < names.len() && (#[trigger] names[i]).len() > 1 && names[i][0] == '-' && names[i].drop_first() == x,
    decreases names.len(),
{
    if names.len() > 0 {
        let init = names.drop_last();
        lemma_filter_exclusions(init);
        assert(filter_of(names).exclude == excluded(names));
        assert(filter_of(init).exclude == excluded(init));
        let n = names.last();
        if n.len() > 0 && n[0] == '-' {
            assert(lower('-') == '-');
            assert(!is_all(n));
        }
        assert forall|i: int|
            0 <= i < names.len() && (#[trigger] names[i]).len() > 1 && names[i][0] == '-'
                implies filter_of(names).exclude.contains(names[i].drop_first()) by {
            if i < names.len() - 1 {
                assert(names[i] == init[i]);
            }
        }
        assert forall|x: Seq<char>| #[trigger] filter_of(names).exclude.contains(x) implies exists|i: int|
            0 <= i < names.len() && (#[trigger] names[i]).len() > 1 && names[i][0] == '-' && names[i].drop_first() == x by {
            if excluded(init).contains(x) {
                let i = choose|i: int|
                    0 <= i < init.len() && (#[trigger] init[i]).len() > 1 && init[i][0] == '-' && init[i].drop_first() == x;
                assert(names[i] == init[i]);
            } else {
                assert(names[names.len() - 1] == n);
            }
        }
    }
}

/// A name that selects an extension: neither `all` (in any ASCII case)
/// nor `-`-prefixed.
pub open spec fn selects(n: Seq<char>) -> bool {
    !is_all(n) && !(n.len() > 0 && n[0] == '-')
}

/// The selecting names, in the order listed, are exactly what `included`
/// gathers.
proof fn lemma_included_filters(names: Seq<Seq<char>>)
    ensures
        included(names) == names.filter(|n: Seq<char>| selects(n)),
    decreases names.len(),
{
    reveal(Seq::filter);
    if names.len() > 0 {
        lemma_included_filters(names.drop_last());
    }
}

/// Without `all`, the filter selects the selecting names, in the order
/// listed, and pins nothing; with `all` (anywhere in the list, in any ASCII
/// case), it selects no list at all and the same names become the
/// baseline-override pins.
pub proof fn lemma_filter_selection(names: Seq<Seq<char>>)
    ensures
        !(exists|i: int| 0 <= i < names.len() && is_all(#[trigger] names[i])) ==> filter_of(names).selected
            == Some(names.filter(|n: Seq<char>| selects(n))) && filter_of(names).keep == Set::<Seq<char>>::empty(),
        (exists|i: int| 0 <= i < names.len() && is_all(#[trigger] names[i])) ==> filter_of(names).selected
            is None && filter_of(names).keep == names.filter(|n: Seq<char>| selects(n)).to_set(),
{
    lemma_included_filters(names);
}

/// `all` is recognised in any ASCII case (`all`, `ALL`, `All`, ...), and
/// nothing else is.
pub proof fn lemma_all_any_case(n: Seq<char>)
    ensures
        is_all(n) <==> n.len() == 3 && (n[0] == 'a' || n[0] == 'A') && (n[1] == 'l' || n[1] == 'L') && (n[2]
            == 'l' || n[2] == 'L'),
{
    if n.len() == 3 {
        assert(lower(n[0]) == 'a' <==> (n[0] == 'a' || n[0] == 'A')) by {
            if crate::text::is_upper(n[0]) {
                assert(n[0] == 'A' <==> (n[0] as int) + 32 == 'a' as int);
            }
        }
        assert(lower(n[1]) == 'l' <==> (n[1] == 'l' || n[1] == 'L')) by {
            if crate::text::is_upper(n[1]) {
                assert(n[1] == 'L' <==> (n[1] as int) + 32 == 'l' as int);
            }
        }
        assert(lower(n[2]) == 'l' <==> (n[2] == 'l' || n[2] == 'L')) by {
            if crate::text::is_upper(n[2]) {
                assert(n[2] == 'L' <==> (n[2] as int) + 32 == 'l' as int);
            }
        }
    }
}

/// The names an `--extensions` value lists: the lines of the file it names
/// (`file_text`), or else its comma-separated pieces.
pub open spec fn listed_names(spec: Seq<char>, file_text: Option<Seq<char>>) -> Seq<Seq<char>> {
    match file_text {
        Some(t) => filter_names(split(t, '\n'), true),
        None => filter_names(split(spec, ','), false),
    }
}

/// ASCII lowercase of `c`.
fn lower_char(c: char) -> (r: char)
    ensures
        r == lower(c),
{
    if c >= 'A' && c <= 'Z' {
        ((c as u8) + 32) as char
    } else {
        c
    }
}

/// `s[lo..hi].eq_ignore_ascii_case("all")`.
fn range_is_all(s: &[char], lo: usize, hi: usize) -> (r: bool)
    requires
        lo <= hi <= s@.len(),
    ensures
        r == is_all(s@.subrange(lo as int, hi as int)),
{
    hi - lo == 3 && lower_char(s[lo]) == 'a' && lower_char(s[lo + 1]) == 'l' && lower_char(
        s[lo + 2],
    ) == 'l'
}

/// Add `x` to the set `v` unless it is already there.
fn insert_unique(v: &mut Vec<String>, x: String)
    requires
        texts(old(v)@).no_duplicates(),
    ensures
        texts(final(v)@).no_duplicates(),
        texts(final(v)@).to_set() == texts(old(v)@).to_set().insert(x@),
{
    let ghost t0 = texts(v@);
    let mut i: usize = 0;
    while i < v.len()
        invariant
            i <= v@.len(),
            texts(v@) == t0,
            t0.no_duplicates(),
            forall|j: int| 0 <= j < i ==> v@[j]@ != x@,
        decreases v.len() - i,
    {
        if v[i] == x {
            proof {
                assert(t0[i as int] == x@);
                assert(t0.to_set().insert(x@) =~= t0.to_set());
            }
            return;
        }
        i = i + 1;
    }
    let ghost xv = x@;
    v.push(x);
    proof {
        assert(texts(v@) =~= t0.push(xv));
        t0.lemma_push_to_set_commute(xv);
    }
}

/// Classify the names of an `--extensions` value into a filter.
pub fn filter_from_names(s: &[char], names: &Vec<(usize, usize)>) -> (r: ExtensionFilter)
    requires
        forall|k: int| 0 <= k < names@.len() ==> #[trigger] names@[k].0 <= names@[k].1 <= s@.len(),
    ensures
        r.well_formed(),
        r@ == filter_of(pieces(s@, names@)),
{
    let ghost ns = pieces(s@, names@);
    let mut include_all = false;
    let mut includes: Vec<String> = Vec::new();
    let mut excludes: Vec<String> = Vec::new();
    let mut k: usize = 0;
    assert(ns.subrange(0, 0) =~= Seq::<Seq<char>>::empty());
    assert(texts(includes@) =~= Seq::<Seq<char>>::empty());
    assert(texts(excludes@) =~= Seq::<Seq<char>>::empty());
    while k < names.len()
        invariant
            k <= names@.len(),
            ns == pieces(s@, names@),
            forall|j: int| 0 <= j < names@.len() ==> #[trigger] names@[j].0 <= names@[j].1 <= s@.len(),
            include_all == any_all(ns.subrange(0, k as int)),
            texts(includes@) == included(ns.subrange(0, k as int)),
            texts(excludes@).no_duplicates(),
            texts(excludes@).to_set() == excluded(ns.subrange(0, k as int)),
        decreases names.len() - k,
    {
        let (a, b) = names[k];
        assert(names@[k as int].0 <= names@[k as int].1 <= s@.len());
        let ghost n = s@.subrange(a as int, b as int);
        let ghost pre = ns.subrange(0, k as int);
        let ghost next = ns.subrange(0, k + 1);
        assert(next.drop_last() =~= pre);
        assert(next.last() == n);
        if range_is_all(s, a, b) {
            include_all = true;
            proof {
                assert(is_all(next[k as int]));
            }
        } else {
            proof {
                if any_all(next) {
                    let i = choose|i: int| 0 <= i < next.len() && is_all(#[trigger] next[i]);
                    assert(i < k ==> pre[i] == next[i]);
                }
                if any_all(pre) {
                    let i = choose|i: int| 0 <= i < pre.len() && is_all(#[trigger] pre[i]);
                    assert(pre[i] == next[i]);
                }
            }
            if a < b && s[a] == '-' {
                if b - a > 1 {
                    let stripped = string_between(s, a + 1, b);
                    assert(stripped@ =~= n.drop_first());
                    insert_unique(&mut excludes, stripped);
                }
            } else {
                let name = string_between(s, a, b);
                let ghost before = includes@;
                includes.push(name);
                assert(texts(includes@) =~= texts(before).push(n));
            }
        }
        proof {
            if any_all(pre) {
                let i = choose|i: int| 0 <= i < pre.len() && is_all(#[trigger] pre[i]);
                assert(pre[i] == next[i]);
            }
        }
        k = k + 1;
    }
    assert(ns.subrange(0, names@.len() as int) =~= ns);
    if include_all {
        let mut keep: Vec<String> = Vec::new();
        let mut j: usize = 0;
        assert(texts(keep@) =~= Seq::<Seq<char>>::empty());
        assert(texts(includes@).subrange(0, 0).to_set() =~= Set::<Seq<char>>::empty());
        while j < includes.len()
            invariant
                j <= includes@.len(),
                include_all,
                ns == pieces(s@, names@),
                any_all(ns),
                texts(includes@) == included(ns),
                texts(excludes@).no_duplicates(),
                texts(excludes@).to_set() == excluded(ns),
                texts(keep@).no_duplicates(),
                texts(keep@).to_set() == texts(includes@).subrange(0, j as int).to_set(),
            decreases includes.len() - j,
        {
            let ghost pre = texts(includes@).subrange(0, j as int);
            assert(texts(includes@).subrange(0, j + 1) =~= pre.push(includes@[j as int]@));
            proof {
                pre.lemma_push_to_set_commute(includes@[j as int]@);
            }
            insert_unique(&mut keep, includes[j].clone());
            j = j + 1;
        }
        assert(texts(includes@).subrange(0, includes@.len() as int) =~= texts(includes@));
        let r = ExtensionFilter { selected: None, exclude: excludes, keep };
        assert(r@ =~= filter_of(ns));
        r
    } else {
        let r = ExtensionFilter { selected: Some(includes), exclude: excludes, keep: Vec::new() };
        assert(texts(r.keep@) =~= Seq::<Seq<char>>::empty());
        assert(r@ =~= filter_of(ns));
        r
    }
}

/// Bounds of the trimmed, kept pieces of `s` split at `c` (see
/// [`filter_names`]).
#[verifier::spinoff_prover]
fn name_ranges(s: &[char], c: char, from_file: bool) -> (r: Vec<(usize, usize)>)
    ensures
        pieces(s@, r@) == filter_names(split(s@, c), from_file),
        forall|k: int| 0 <= k < r@.len() ==> #[trigger] r@[k].0 <= r@[k].1 <= s@.len(),
{
    let ranges = split_ranges(s, c, 0, s.len());
    assert(s@.subrange(0, s@.len() as int) =~= s@);
    let ghost parts = split(s@, c);
    let mut out: Vec<(usize, usize)> = Vec::new();
    let mut k: usize = 0;
    assert(parts.subrange(0, 0) =~= Seq::<Seq<char>>::empty());
    assert(pieces(s@, out@) =~= Seq::<Seq<char>>::empty());
    while k < ranges.len()
        invariant
            k <= ranges@.len(),
            parts == split(s@, c),
            parts == pieces(s@, ranges@),
            forall|j: int| 0 <= j < ranges@.len() ==> 0 <= #[trigger] ranges@[j].0 <= ranges@[j].1 <= s@.len(),
            forall|j: int| 0 <= j < out@.len() ==> #[trigger] out@[j].0 <= out@[j].1 <= s@.len(),
            pieces(s@, out@) == filter_names(parts.subrange(0, k as int), from_file),
        decreases ranges.len() - k,
    {
        let (a, b) = ranges[k];
        assert(ranges@[k as int].0 <= ranges@[k as int].1 <= s@.len());
        let (ta, tb) = trim_bounds(s, a, b);
        let ghost next = parts.subrange(0, k + 1);
        assert(next.drop_last() =~= parts.subrange(0, k as int));
        assert(next.last() == s@.subrange(a as int, b as int));
        let ghost before = out@;
        if ta < tb && !(from_file && s[ta] == '#') {
            out.push((ta, tb));
            assert(pieces(s@, out@) =~= pieces(s@, before).push(s@.subrange(ta as int, tb as int)));
            assert forall|j: int| 0 <= j < out@.len() implies #[trigger] out@[j].0 <= out@[j].1 <= s@.len() by {
                if j < before.len() {
                    assert(out@[j] == before[j]);
                }
            }
        }
        k = k + 1;
    }
    assert(parts.subrange(0, ranges@.len() as int) =~= parts);
    out
}

impl Cli {
    /// Parse `--extensions` into an [`ExtensionFilter`].  `file_text` is the
    /// content of the file the value names, when it names one (then the
    /// names are its non-blank, non-`#` lines); otherwise the value is a
    /// comma-separated list.
    #[verifier::spinoff_prover]
    pub fn extension_filter(&self, file_text: Option<&str>) -> (r: ExtensionFilter)
        ensures
            r.well_formed(),
            match &self.extensions {
                None => r@ == FilterView {
                    selected: None,
                    exclude: Set::empty(),
                    keep: Set::empty(),
                },
                Some(spec) => r@ == filter_of(listed_names(
                    spec@,
                    match file_text {
                        Some(t) => Some(t@),
                        None => None,
                    },
                )),
            },
    {
        match &self.extensions {
            None => {
                let r = ExtensionFilter::all();
                assert(r@ =~= FilterView { selected: None, exclude: Set::empty(), keep: Set::empty() });
                r
            },
            Some(spec) => {
                let (text, c, from_file) = match file_text {
                    Some(t) => (chars_of(t), '\n', true),
                    None => (chars_of(spec.as_str()), ',', false),
                };
                let chars = text.as_slice();
                let ranges = name_ranges(chars, c, from_file);
                filter_from_names(chars, &ranges)
            },
        }
    }
}

// ---------------------------------------------------------------------------
// ApiRequest
// ---------------------------------------------------------------------------

/// One parsed entry from the `--api` argument.
#[derive(Debug, Clone)]
pub struct ApiRequest {
    pub api: Api,
    /// Only for desktop GL: "core" or "compatibility", the exact profile
    /// tokens of the Khronos XML.
    pub profile: Option<String>,
    /// Maximum version to take.  None means "latest available".
    pub version: Option<Version>,
}

/// The content of an [`ApiRequest`].
pub struct RequestView {
    pub api: Api,
    pub profile: Option<Seq<char>>,
    pub version: Option<(u32, u32)>,
}

impl View for ApiRequest {
    type V = RequestView;

    open spec fn view(&self) -> RequestView {
        RequestView {
            api: self.api,
            profile: match &self.profile {
                Some(p) => Some(p@),
                None => None,
            },
            version: match &self.version {
                Some(v) => Some((v.major, v.minor)),
                None => None,
            },
        }
    }
}

/// `s` split at its first `c`: the text before it and, when there is one,
/// the text after it.
pub open spec fn split_first(s: Seq<char>, c: char) -> (Seq<char>, Option<Seq<char>>) {
    match find(s, c) {
        Some(i) => (s.subrange(0, i), Some(s.subrange(i + 1, s.len() as int))),
        None => (s, None),
    }
}

/// Whether `api` may carry `profile`: desktop GL needs `core` or
/// `compatibility`; every other API takes none.
pub open spec fn profile_fault(api: Api, profile: Option<Seq<char>>) -> Option<Fault> {
    if api == Api::Gl {
        match profile {
            None => Some(Fault::GlProfileRequired),
            Some(p) => if p == "core"@ || p == "compatibility"@ {
                None
            } else {
                Some(Fault::UnknownGlProfile(p))
            },
        }
    } else {
        match profile {
            None => None,
            Some(p) => Some(Fault::ProfileNotAllowed(api, p)),
        }
    }
}

/// `major.minor`, split at the first `.`, each part a decimal `u32`.
#[verifier::opaque]
pub open spec fn version_parse(v: Seq<char>) -> Result<(u32, u32), Fault> {
    match find(v, '.') {
        None => Err(Fault::InvalidVersion(v)),
        Some(i) => match parse_u32_spec(v.subrange(0, i)) {
            Err(k) => Err(Fault::InvalidInteger(k)),
            Ok(a) => match parse_u32_spec(v.subrange(i + 1, v.len() as int)) {
                Err(k) => Err(Fault::InvalidInteger(k)),
                Ok(b) => Ok((a, b)),
            },
        },
    }
}

/// A `name[:profile][=major.minor]` token: the version follows the first
/// `=`, the profile the first `:` before it.
#[verifier::opaque]
pub open spec fn request_parse(s: Seq<char>) -> Result<RequestView, Fault> {
    let (name_profile, ver) = split_first(s, '=');
    let (name, profile) = split_first(name_profile, ':');
    if name.len() == 0 {
        Err(Fault::EmptyApiName)
    } else {
        match api_named(name) {
            None => Err(Fault::UnknownApi(name)),
            Some(api) => match profile_fault(api, profile) {
                Some(f) => Err(f),
                None => match ver {
                    None => Ok(RequestView { api, profile, version: None }),
                    Some(v) => match version_parse(v) {
                        Err(f) => Err(f),
                        Ok(p) => Ok(RequestView { api, profile, version: Some(p) }),
                    },
                },
            },
        }
    }
}

/// `result` is what [`request_parse`] says of `s`.
pub open spec fn parsed_as(result: Result<ApiRequest, Error>, s: Seq<char>) -> bool {
    match request_parse(s) {
        Ok(v) => result matches Ok(q) && q@ == v,
        Err(f) => result matches Err(e) && e@ == f,
    }
}

/// Parse every trimmed piece in turn; the first piece that fails decides
/// the error.
pub open spec fn requests_parse(parts: Seq<Seq<char>>) -> Result<Seq<RequestView>, Fault>
    decreases parts.len(),
{
    if parts.len() == 0 {
        Ok(Seq::empty())
    } else {
        match requests_parse(parts.drop_last()) {
            Err(f) => Err(f),
            Ok(vs) => match request_parse(trim(parts.last())) {
                Err(f) => Err(f),
                Ok(v) => Ok(vs.push(v)),
            },
        }
    }
}

/// The contents of a list of requests.
pub open spec fn request_views(qs: Seq<ApiRequest>) -> Seq<RequestView> {
    qs.map_values(|q: ApiRequest| q@)
}

/// `result` is what [`requests_parse`] says of the comma-separated list `s`.
pub open spec fn list_parsed_as(result: Result<Vec<ApiRequest>, Error>, s: Seq<char>) -> bool {
    match requests_parse(split(s, ',')) {
        Ok(vs) => result matches Ok(qs) && request_views(qs@) == vs,
        Err(f) => result matches Err(e) && e@ == f,
    }
}

/// Once a prefix of the pieces fails, the whole list fails the same way.
proof fn lemma_requests_error_sticks(parts: Seq<Seq<char>>, k: int, f: Fault)
    requires
        0 <= k <= parts.len(),
        requests_parse(parts.subrange(0, k)) == Err::<Seq<RequestView>, Fault>(f),
    ensures
        requests_parse(parts) == Err::<Seq<RequestView>, Fault>(f),
    decreases parts.len() - k,
{
    if k == parts.len() {
        assert(parts.subrange(0, k) =~= parts);
    } else {
        assert(parts.subrange(0, k + 1).drop_last() =~= parts.subrange(0, k));
        lemma_requests_error_sticks(parts, k + 1, f);
    }
}

/// Parse a comma-separated list of `name[:profile][=major.minor]` tokens,
/// each trimmed.
pub fn parse_request_list(list: &str) -> (r: Result<Vec<ApiRequest>, Error>)
    ensures
        list_parsed_as(r, list@),
{
    let s = chars_of(list);
    let ranges = split_ranges(s.as_slice(), ',', 0, s.len());
    assert(s@.subrange(0, s@.len() as int) =~= list@);
    let ghost parts = split(list@, ',');
    let mut out: Vec<ApiRequest> = Vec::new();
    let mut k: usize = 0;
    assert(parts.subrange(0, 0) =~= Seq::<Seq<char>>::empty());
    assert(request_views(out@) =~= Seq::<RequestView>::empty());
    while k < ranges.len()
        invariant
            s@ == list@,
            parts == split(list@, ','),
            parts == pieces(s@, ranges@),
            forall|j: int| 0 <= j < ranges@.len() ==> 0 <= #[trigger] ranges@[j].0 <= ranges@[j].1 <= s@.len(),
            k <= ranges@.len(),
            requests_parse(parts.subrange(0, k as int)) == Ok::<Seq<RequestView>, Fault>(
                request_views(out@),
            ),
        decreases ranges.len() - k,
    {
        let (a, b) = ranges[k];
        assert(ranges@[k as int].0 <= ranges@[k as int].1 <= s@.len());
        let (ta, tb) = trim_bounds(s.as_slice(), a, b);
        assert(parts.subrange(0, k + 1).drop_last() =~= parts.subrange(0, k as int));
        assert(parts[k as int] == s@.subrange(a as int, b as int));
        assert(parts.subrange(0, k + 1).last() == parts[k as int]);
        match ApiRequest::parse_range(s.as_slice(), ta, tb) {
            Ok(q) => {
                let ghost before = out@;
                out.push(q);
                assert(request_views(out@) =~= request_views(before).push(q@));
            },
            Err(e) => {
                proof {
                    assert(request_parse(s@.subrange(ta as int, tb as int)) == Err::<RequestView, Fault>(e@));
                    assert(requests_parse(parts.subrange(0, k + 1)) == Err::<Seq<RequestView>, Fault>(e@));
                    lemma_requests_error_sticks(parts, k + 1, e@);
                }
                return Err(e);
            },
        }
        k = k + 1;
    }
    assert(parts.subrange(0, ranges@.len() as int) =~= parts);
    Ok(out)
}

impl Cli {
    /// The `--api` requests; `--api` is required for generation.
    pub fn api_requests(&self) -> (r: Result<Vec<ApiRequest>, Error>)
        ensures
            match &self.api {
                None => r matches Err(e) && e@ == Fault::MissingApi,
                Some(a) => list_parsed_as(r, a@),
            },
    {
        match &self.api {
            None => Err(Error::MissingApi),
            Some(a) => parse_request_list(a.as_str()),
        }
    }

    /// Whether to fetch specs from upstream instead of the bundled copies.
    pub fn use_fetch(&self) -> (r: bool)
        ensures
            r == self.fetch,
    {
        self.fetch
    }

    /// The `--baseline` requests (same format as `--api`); none without it.
    pub fn baseline_requests(&self) -> (r: Result<Vec<ApiRequest>, Error>)
        ensures
            match &self.baseline {
                None => r matches Ok(v) && v@.len() == 0,
                Some(b) => list_parsed_as(r, b@),
            },
    {
        match &self.baseline {
            None => Ok(Vec::new()),
            Some(b) => parse_request_list(b.as_str()),
        }
    }
}

impl ApiRequest {
    /// Parse and validate a single `name[:profile][=major.minor]` token.
    pub fn parse(s: &str) -> (r: Result<Self, Error>)
        ensures
            parsed_as(r, s@),
    {
        let v = chars_of(s);
        let r = Self::parse_range(v.as_slice(), 0, v.len());
        assert(v@.subrange(0, v@.len() as int) =~= s@);
        r
    }

    /// [`ApiRequest::parse`] on `s[lo..hi]`.
    pub fn parse_range(s: &[char], lo: usize, hi: usize) -> (r: Result<Self, Error>)
        requires
            lo <= hi <= s@.len(),
        ensures
            parsed_as(r, s@.subrange(lo as int, hi as int)),
    {
        reveal(request_parse);
        reveal(version_parse);
        let ghost t = s@.subrange(lo as int, hi as int);
        let (np_end, ver) = match find_in(s, '=', lo, hi) {
            Some(i) => (i, Some((i + 1, hi))),
            None => (hi, None),
        };
        proof {
            assert(t.subrange(0, np_end - lo) =~= s@.subrange(lo as int, np_end as int));
            if np_end < hi {
                assert(t.subrange(np_end - lo + 1, t.len() as int) =~= s@.subrange(np_end + 1, hi as int));
            }
        }
        let ghost np = s@.subrange(lo as int, np_end as int);
        assert(split_first(t, '=').0 == np);
        let (name_end, prof) = match find_in(s, ':', lo, np_end) {
            Some(i) => (i, Some((i + 1, np_end))),
            None => (np_end, None),
        };
        proof {
            assert(np.subrange(0, name_end - lo) =~= s@.subrange(lo as int, name_end as int));
            if name_end < np_end {
                assert(np.subrange(name_end - lo + 1, np.len() as int) =~= s@.subrange(name_end + 1, np_end as int));
            }
        }
        if name_end == lo {
            return Err(Error::EmptyApiName);
        }
        let name = string_between(s, lo, name_end);
        let api = match Api::from_cli(name.as_str()) {
            Ok(a) => a,
            Err(e) => return Err(e),
        };
        let profile: Option<String> = match prof {
            Some((a, b)) => Some(string_between(s, a, b)),
            None => None,
        };
        if api == Api::Gl {
            match &profile {
                None => return Err(Error::GlProfileRequired),
                Some(p) => {
                    if !(str_eq(p.as_str(), "core") || str_eq(p.as_str(), "compatibility")) {
                        return Err(Error::UnknownGlProfile { profile: p.clone() });
                    }
                },
            }
        } else {
            match profile {
                Some(p) => return Err(Error::ProfileNotAllowed { api, profile: p }),
                None => {},
            }
        }
        let version = match ver {
            None => None,
            Some((a, b)) => {
                proof {
                    assert(s@.subrange(a as int, b as int) == split_first(t, '=').1->0);
                }
                match find_in(s, '.', a, b) {
                    None => return Err(Error::InvalidVersion { text: string_between(s, a, b) }),
                    Some(d) => {
                        let ghost w = s@.subrange(a as int, b as int);
                        proof {
                            assert(w.subrange(0, d - a) =~= s@.subrange(a as int, d as int));
                            assert(w.subrange(d - a + 1, w.len() as int) =~= s@.subrange(d + 1, b as int));
                        }
                        let major = match parse_u32(s, a, d) {
                            Ok(x) => x,
                            Err(k) => return Err(Error::InvalidInteger { kind: k }),
                        };
                        let minor = match parse_u32(s, d + 1, b) {
                            Ok(x) => x,
                            Err(k) => return Err(Error::InvalidInteger { kind: k }),
                        };
                        Some(Version::new(major, minor))
                    },
                }
            },
        };
        Ok(ApiRequest { api, profile, version })
    }

    /// The spec family this request's definitions live in.
    pub fn spec(&self) -> (r: Spec)
        ensures
            r == self.api.family(),
    {
        self.api.spec()
    }
}

} // verus!
