//! Typed C declarator parsing — `TypeRef`, the structured view of a
//! parameter, return, or struct-member type.
//!
//! The registries express types as fragments of C declarator syntax
//! (`const GLchar *const*`, `float blendConstants[4]`,
//! `uint32_t instanceCustomIndex:24`).  The grammar those fragments draw
//! from is closed and small, so this module parses it exactly and refuses
//! anything outside it.
//!
//! ```text
//! declarator := {qualifier} base {qualifier} {pointer} [name] {array} [bitfield]
//! qualifier  := "const" | "struct"
//! base       := builtin-word+ | identifier
//! pointer    := "*" ["const"]
//! array      := "[" (integer | identifier) "]"
//! bitfield   := ":" integer
//! ```
//!
//! A `const` before any `*` binds to the base; a `const` after a `*` binds
//! to that pointer level, exactly as in C.

use vstd::prelude::*;

use crate::error::{DeclErrorKind, DeclFault, Error, Fault};
use crate::text::{
    ascii_digit, ascii_lower, ascii_upper, chars_of, find, find_in, ident_char, is_digit,
    is_ident_char, is_lower, is_upper, parse_u32, parse_u32_spec, range_eq, skip_space,
    string_between, string_from_chars, trim, trim_bounds, trim_start, trim_end, is_space, first_at,
};

verus! {

// ---------------------------------------------------------------------------
// TypeRef
// ---------------------------------------------------------------------------

/// A parsed C declarator.  Language-neutral: printers decide how each piece
/// is spelled in their target.
#[derive(Debug, Clone)]
pub struct TypeRef {
    /// Whitespace-normalized base type name: `"GLenum"`, `"unsigned int"`.
    pub base: String,
    /// The base (the deepest pointee) is const-qualified.
    pub base_const: bool,
    /// The base was written with the `struct` keyword.
    pub struct_kw: bool,
    /// Pointer levels, innermost first; `true` means that pointer itself is
    /// const-qualified (`* const`).
    pub pointers: Vec<bool>,
    /// Array dimensions as written, outermost first.
    pub array: Vec<String>,
    /// Bitfield width (struct members only).
    pub bitfield: Option<u32>,
    /// Declarator name embedded in the fragment, when present.
    pub decl_name: Option<String>,
}

/// The content of a [`TypeRef`].
#[verifier::ext_equal]
pub struct TypeView {
    pub base: Seq<char>,
    pub base_const: bool,
    pub struct_kw: bool,
    pub pointers: Seq<bool>,
    pub array: Seq<Seq<char>>,
    pub bitfield: Option<u32>,
    pub decl_name: Option<Seq<char>>,
}

impl View for TypeRef {
    type V = TypeView;

    open spec fn view(&self) -> TypeView {
        TypeView {
            base: self.base@,
            base_const: self.base_const,
            struct_kw: self.struct_kw,
            pointers: self.pointers@,
            array: self.array@.map_values(|d: String| d@),
            bitfield: self.bitfield,
            decl_name: match &self.decl_name {
                Some(n) => Some(n@),
                None => None,
            },
        }
    }
}

/// The empty declarator every parse starts from.
pub open spec fn empty_view() -> TypeView {
    TypeView {
        base: Seq::empty(),
        base_const: false,
        struct_kw: false,
        pointers: Seq::empty(),
        array: Seq::empty(),
        bitfield: None,
        decl_name: None,
    }
}

impl Default for TypeRef {
    fn default() -> (r: Self)
        ensures
            r@ == empty_view(),
    {
        let r = TypeRef {
            base: String::new(),
            base_const: false,
            struct_kw: false,
            pointers: Vec::new(),
            array: Vec::new(),
            bitfield: None,
            decl_name: None,
        };
        assert(r@ =~= empty_view());
        r
    }
}

// ---------------------------------------------------------------------------
// The lexical grammar
// ---------------------------------------------------------------------------

/// A token of the declarator grammar.
pub enum Tok {
    Ident(Seq<char>),
    Star,
    /// `[dim]`: the trimmed dimension text.
    Dim(Seq<char>),
    /// `:width`.
    Bits(u32),
}

/// C scalar keywords that may combine into a multi-word base type.
pub open spec fn is_builtin(w: Seq<char>) -> bool {
    w == "void"@ || w == "char"@ || w == "short"@ || w == "int"@ || w == "long"@ || w == "float"@
        || w == "double"@ || w == "signed"@ || w == "unsigned"@
}

/// First position at or after `i` that is not whitespace (or the end).
pub open spec fn skip_ws(s: Seq<char>, i: int) -> int {
    s.len() - trim_start(s.subrange(i, s.len() as int)).len()
}

/// End of the run of characters satisfying `is_digit` from `a`.
pub open spec fn digit_end(s: Seq<char>, a: int) -> int
    decreases s.len() - a,
{
    if 0 <= a < s.len() && is_digit(s[a]) {
        digit_end(s, a + 1)
    } else {
        a
    }
}

/// End of the run of identifier characters from `a`.
pub open spec fn ident_end(s: Seq<char>, a: int) -> int
    decreases s.len() - a,
{
    if 0 <= a < s.len() && is_ident_char(s[a]) {
        ident_end(s, a + 1)
    } else {
        a
    }
}

/// Every character is an identifier character.
pub open spec fn all_ident(d: Seq<char>) -> bool {
    forall|k: int| 0 <= k < d.len() ==> is_ident_char(#[trigger] d[k])
}

/// The token starting at or after position `i` (after whitespace) and the
/// position just past it; `None` at the end of the text.
pub open spec fn lex_at(s: Seq<char>, i: int) -> Result<Option<(Tok, int)>, DeclFault> {
    let j = skip_ws(s, i);
    if j >= s.len() {
        Ok(None)
    } else if s[j] == '*' {
        Ok(Some((Tok::Star, j + 1)))
    } else if s[j] == '[' {
        match find(s.subrange(j, s.len() as int), ']') {
            None => Err(DeclFault::Unterminated),
            Some(k) => {
                let d = trim(s.subrange(j + 1, j + k));
                if d.len() == 0 || !all_ident(d) {
                    Err(DeclFault::BadDim(d))
                } else {
                    Ok(Some((Tok::Dim(d), j + k + 1)))
                }
            },
        }
    } else if s[j] == ':' {
        let a = skip_ws(s, j + 1);
        let e = digit_end(s, a);
        match parse_u32_spec(s.subrange(a, e)) {
            Err(_) => Err(DeclFault::BadBitfield(s.subrange(a, e))),
            Ok(w) => Ok(Some((Tok::Bits(w), e))),
        }
    } else if is_lower(s[j]) || is_upper(s[j]) || s[j] == '_' {
        let e = ident_end(s, j);
        Ok(Some((Tok::Ident(s.subrange(j, e)), e)))
    } else {
        Err(DeclFault::UnexpectedChar(s[j]))
    }
}

// ---------------------------------------------------------------------------
// The declarator state machine
// ---------------------------------------------------------------------------

/// Parser state: the declarator so far, and whether the base is a builtin
/// word that the next builtin word extends (`unsigned int`).
pub struct DeclState {
    pub ty: TypeView,
    pub chaining: bool,
}

/// Fold one token into the state.
pub open spec fn apply(st: DeclState, t: Tok) -> Result<DeclState, DeclFault> {
    let ty = st.ty;
    match t {
        Tok::Ident(w) => if st.chaining && is_builtin(w) {
            Ok(DeclState { ty: TypeView { base: ty.base + seq![' '] + w, ..ty }, chaining: true })
        } else if w == "const"@ {
            if ty.pointers.len() > 0 {
                Ok(DeclState {
                    ty: TypeView { pointers: ty.pointers.update(ty.pointers.len() - 1, true), ..ty },
                    chaining: false,
                })
            } else {
                Ok(DeclState { ty: TypeView { base_const: true, ..ty }, chaining: false })
            }
        } else if w == "struct"@ {
            if ty.base.len() > 0 {
                Err(DeclFault::StructAfterBase)
            } else {
                Ok(DeclState { ty: TypeView { struct_kw: true, ..ty }, chaining: false })
            }
        } else if ty.base.len() == 0 {
            Ok(DeclState { ty: TypeView { base: w, ..ty }, chaining: is_builtin(w) })
        } else if ty.decl_name is None {
            Ok(DeclState { ty: TypeView { decl_name: Some(w), ..ty }, chaining: false })
        } else {
            Err(DeclFault::ExtraIdent(w))
        },
        Tok::Star => if ty.base.len() == 0 {
            Err(DeclFault::StarBeforeBase)
        } else if ty.decl_name is Some || ty.array.len() > 0 {
            Err(DeclFault::StarAfterName)
        } else {
            Ok(DeclState { ty: TypeView { pointers: ty.pointers.push(false), ..ty }, chaining: false })
        },
        Tok::Dim(d) => if ty.base.len() == 0 {
            Err(DeclFault::DimBeforeBase)
        } else {
            Ok(DeclState { ty: TypeView { array: ty.array.push(d), ..ty }, chaining: false })
        },
        Tok::Bits(w) => if ty.base.len() == 0 || ty.bitfield is Some {
            Err(DeclFault::MisplacedBitfield)
        } else {
            Ok(DeclState { ty: TypeView { bitfield: Some(w), ..ty }, chaining: false })
        },
    }
}

/// Run the state machine over the tokens of `s` from position `i`.
pub open spec fn parse_from(s: Seq<char>, i: int, st: DeclState) -> Result<DeclState, DeclFault>
    decreases s.len() - i,
{
    if !(0 <= i <= s.len()) {
        Err(DeclFault::NoBase)
    } else {
        match lex_at(s, i) {
            Err(f) => Err(f),
            Ok(None) => Ok(st),
            Ok(Some((t, j))) => if i < j <= s.len() {
                match apply(st, t) {
                    Err(f) => Err(f),
                    Ok(st2) => parse_from(s, j, st2),
                }
            } else {
                Err(DeclFault::NoBase)
            },
        }
    }
}

/// The declarator `s` describes, or why it is outside the grammar.
pub open spec fn declarator(s: Seq<char>) -> Result<TypeView, DeclFault> {
    match parse_from(s, 0, DeclState { ty: empty_view(), chaining: false }) {
        Err(f) => Err(f),
        Ok(st) => if st.ty.base.len() == 0 {
            Err(DeclFault::NoBase)
        } else {
            Ok(st.ty)
        },
    }
}

// ---------------------------------------------------------------------------
// Lexer
// ---------------------------------------------------------------------------

/// A token, as positions into the text.
enum Token {
    Ident(usize, usize),
    Star,
    Dim(usize, usize),
    Bits(u32),
}

/// The token a [`Token`] stands for in `s`.
spec fn tok_of(s: Seq<char>, t: Token) -> Tok {
    match t {
        Token::Ident(a, b) => Tok::Ident(s.subrange(a as int, b as int)),
        Token::Star => Tok::Star,
        Token::Dim(a, b) => Tok::Dim(s.subrange(a as int, b as int)),
        Token::Bits(w) => Tok::Bits(w),
    }
}

/// The positions of `t` lie inside `s`.
spec fn tok_in(s: Seq<char>, t: Token) -> bool {
    match t {
        Token::Ident(a, b) => a <= b <= s.len(),
        Token::Dim(a, b) => a <= b <= s.len(),
        _ => true,
    }
}

/// End of the digit run at `a`.
pub(crate) fn digit_run(s: &[char], a: usize) -> (r: usize)
    requires
        a <= s@.len(),
    ensures
        a <= r <= s@.len(),
        r == digit_end(s@, a as int),
{
    let n = s.len();
    let mut k = a;
    while k < n && ascii_digit(s[k])
        invariant
            a <= k <= n == s@.len(),
            digit_end(s@, a as int) == digit_end(s@, k as int),
        decreases n - k,
    {
        k = k + 1;
    }
    k
}

/// End of the identifier run at `a`.
pub(crate) fn ident_run(s: &[char], a: usize) -> (r: usize)
    requires
        a <= s@.len(),
    ensures
        a <= r <= s@.len(),
        r == ident_end(s@, a as int),
{
    let n = s.len();
    let mut k = a;
    while k < n && ident_char(s[k])
        invariant
            a <= k <= n == s@.len(),
            ident_end(s@, a as int) == ident_end(s@, k as int),
        decreases n - k,
    {
        k = k + 1;
    }
    k
}

/// An identifier run never ends before it starts.
pub proof fn lemma_ident_end_past(s: Seq<char>, a: int)
    requires
        0 <= a <= s.len(),
    ensures
        a <= ident_end(s, a) <= s.len(),
    decreases s.len() - a,
{
    if a < s.len() && is_ident_char(s[a]) {
        lemma_ident_end_past(s, a + 1);
    }
}

/// Whether every character of `s[a..b]` is an identifier character.
fn all_ident_range(s: &[char], a: usize, b: usize) -> (r: bool)
    requires
        a <= b <= s@.len(),
    ensures
        r == all_ident(s@.subrange(a as int, b as int)),
{
    let mut k = a;
    while k < b
        invariant
            a <= k <= b <= s@.len(),
            forall|m: int| a <= m < k ==> is_ident_char(s@[m]),
        decreases b - k,
    {
        if !ident_char(s[k]) {
            assert(!is_ident_char(s@.subrange(a as int, b as int)[k - a]));
            return false;
        }
        k = k + 1;
    }
    assert forall|m: int| 0 <= m < b - a implies is_ident_char(#[trigger] s@.subrange(a as int, b as int)[m]) by {
        assert(s@.subrange(a as int, b as int)[m] == s@[a + m]);
    }
    true
}

/// Whether `s[a..b]` is one of the builtin scalar words.
fn builtin_range(s: &[char], a: usize, b: usize) -> (r: bool)
    requires
        a <= b <= s@.len(),
    ensures
        r == is_builtin(s@.subrange(a as int, b as int)),
{
    range_eq(s, a, b, "void") || range_eq(s, a, b, "char") || range_eq(s, a, b, "short")
        || range_eq(s, a, b, "int") || range_eq(s, a, b, "long") || range_eq(s, a, b, "float")
        || range_eq(s, a, b, "double") || range_eq(s, a, b, "signed") || range_eq(
        s,
        a,
        b,
        "unsigned",
    )
}

/// The token at or after position `i`.
fn next_token(s: &[char], i: usize) -> (r: Result<Option<(Token, usize)>, DeclErrorKind>)
    requires
        i <= s@.len(),
    ensures
        match lex_at(s@, i as int) {
            Err(f) => r matches Err(k) && k@ == f,
            Ok(None) => r matches Ok(None),
            Ok(Some((t, j))) => r matches Ok(Some((tk, jj))) && tok_of(s@, tk) == t && jj == j
                && i < j <= s@.len() && tok_in(s@, tk),
        },
{
    let n = s.len();
    let j = skip_space(s, i, n);
    assert(skip_ws(s@, i as int) == j);
    if j >= n {
        return Ok(None);
    }
    let c = s[j];
    if c == '*' {
        return Ok(Some((Token::Star, j + 1)));
    }
    if c == '[' {
        return match find_in(s, ']', j, n) {
            None => Err(DeclErrorKind::Unterminated),
            Some(close) => {
                let (a, b) = trim_bounds(s, j + 1, close);
                if a == b || !all_ident_range(s, a, b) {
                    Err(DeclErrorKind::BadDim { dim: string_between(s, a, b) })
                } else {
                    Ok(Some((Token::Dim(a, b), close + 1)))
                }
            },
        };
    }
    if c == ':' {
        let a = skip_space(s, j + 1, n);
        assert(skip_ws(s@, j + 1) == a);
        let e = digit_run(s, a);
        return match parse_u32(s, a, e) {
            Err(_) => Err(DeclErrorKind::BadBitfield { digits: string_between(s, a, e) }),
            Ok(w) => {
                proof {
                    if e == a {
                        assert(parse_u32_spec(s@.subrange(a as int, e as int)) is Err);
                    }
                }
                Ok(Some((Token::Bits(w), e)))
            },
        };
    }
    if ascii_lower(c) || ascii_upper(c) || c == '_' {
        let e = ident_run(s, j);
        proof {
            assert(ident_end(s@, j as int) == ident_end(s@, j + 1));
            lemma_ident_end_past(s@, j + 1);
        }
        return Ok(Some((Token::Ident(j, e), e)));
    }
    Err(DeclErrorKind::UnexpectedChar { c })
}

/// Fold one token into the declarator being built.
fn apply_token(s: &[char], ty: &mut TypeRef, chaining: &mut bool, t: Token) -> (r: Result<
    (),
    DeclErrorKind,
>)
    requires
        tok_in(s@, t),
    ensures
        match apply(DeclState { ty: old(ty)@, chaining: *old(chaining) }, tok_of(s@, t)) {
            Ok(st) => r is Ok && final(ty)@ == st.ty && *final(chaining) == st.chaining,
            Err(f) => r matches Err(k) && k@ == f,
        },
{
    let ghost before = ty@;
    match t {
        Token::Ident(a, b) => {
            let w = string_between(s, a, b);
            if *chaining && builtin_range(s, a, b) {
                let nb = ty.base.clone().concat(" ").concat(w.as_str());
                ty.base = nb;
                proof {
                    reveal_strlit(" ");
                    assert(ty@ =~= TypeView { base: before.base + seq![' '] + w@, ..before });
                }
            } else if range_eq(s, a, b, "const") {
                if ty.pointers.len() > 0 {
                    let l = ty.pointers.len() - 1;
                    ty.pointers.set(l, true);
                    assert(ty@ =~= TypeView {
                        pointers: before.pointers.update(before.pointers.len() - 1, true),
                        ..before
                    });
                } else {
                    ty.base_const = true;
                    assert(ty@ =~= TypeView { base_const: true, ..before });
                }
                *chaining = false;
            } else if range_eq(s, a, b, "struct") {
                if !ty.base.as_str().is_empty() {
                    return Err(DeclErrorKind::StructAfterBase);
                }
                ty.struct_kw = true;
                *chaining = false;
                assert(ty@ =~= TypeView { struct_kw: true, ..before });
            } else if ty.base.as_str().is_empty() {
                let builtin = builtin_range(s, a, b);
                ty.base = w;
                *chaining = builtin;
                assert(ty@ =~= TypeView { base: s@.subrange(a as int, b as int), ..before });
            } else if ty.decl_name.is_none() {
                ty.decl_name = Some(w);
                *chaining = false;
                assert(ty@ =~= TypeView { decl_name: Some(s@.subrange(a as int, b as int)), ..before });
            } else {
                return Err(DeclErrorKind::ExtraIdent { word: w });
            }
        },
        Token::Star => {
            if ty.base.as_str().is_empty() {
                return Err(DeclErrorKind::StarBeforeBase);
            }
            if ty.decl_name.is_some() || ty.array.len() > 0 {
                return Err(DeclErrorKind::StarAfterName);
            }
            ty.pointers.push(false);
            *chaining = false;
            assert(ty@ =~= TypeView { pointers: before.pointers.push(false), ..before });
        },
        Token::Dim(a, b) => {
            if ty.base.as_str().is_empty() {
                return Err(DeclErrorKind::DimBeforeBase);
            }
            let d = string_between(s, a, b);
            ty.array.push(d);
            *chaining = false;
            assert(ty@.array =~= before.array.push(s@.subrange(a as int, b as int)));
            assert(ty@ =~= TypeView { array: before.array.push(s@.subrange(a as int, b as int)), ..before });
        },
        Token::Bits(w) => {
            if ty.base.as_str().is_empty() || ty.bitfield.is_some() {
                return Err(DeclErrorKind::MisplacedBitfield);
            }
            ty.bitfield = Some(w);
            *chaining = false;
            assert(ty@ =~= TypeView { bitfield: Some(w), ..before });
        },
    }
    Ok(())
}

impl TypeRef {
    /// Parse a C declarator fragment.  Errors on anything outside the
    /// registry grammar, quoting the offending input.
    pub fn parse(input: &str) -> (r: Result<TypeRef, Error>)
        ensures
            match declarator(input@) {
                Ok(v) => r matches Ok(t) && t@ == v,
                Err(f) => r matches Err(e) && e@ == Fault::Declarator(f, input@),
            },
    {
        let s = chars_of(input);
        let n = s.len();
        let mut ty = TypeRef::default();
        let mut chaining = false;
        let mut i: usize = 0;
        let ghost start = DeclState { ty: empty_view(), chaining: false };
        loop
            invariant
                i <= n == s@.len(),
                s@ == input@,
                start == (DeclState { ty: empty_view(), chaining: false }),
                parse_from(s@, 0, start) == parse_from(s@, i as int, DeclState { ty: ty@, chaining }),
            ensures
                parse_from(s@, 0, start) == Ok::<DeclState, DeclFault>(
                    DeclState { ty: ty@, chaining },
                ),
            decreases n - i,
        {
            let ghost st = DeclState { ty: ty@, chaining };
            match next_token(s.as_slice(), i) {
                Err(k) => {
                    assert(parse_from(s@, i as int, st) == Err::<DeclState, DeclFault>(k@));
                    return Err(Error::Declarator { kind: k, input: input.to_owned() });
                },
                Ok(None) => {
                    assert(parse_from(s@, i as int, st) == Ok::<DeclState, DeclFault>(st));
                    break;
                },
                Ok(Some((t, j))) => {
                    match apply_token(s.as_slice(), &mut ty, &mut chaining, t) {
                        Err(k) => {
                            assert(parse_from(s@, i as int, st) == Err::<DeclState, DeclFault>(k@));
                            return Err(Error::Declarator { kind: k, input: input.to_owned() });
                        },
                        Ok(()) => {},
                    }
                    assert(parse_from(s@, i as int, st) == parse_from(
                        s@,
                        j as int,
                        DeclState { ty: ty@, chaining },
                    ));
                    i = j;
                },
            }
        }
        if ty.base.as_str().is_empty() {
            return Err(Error::Declarator { kind: DeclErrorKind::NoBase, input: input.to_owned() });
        }
        Ok(ty)
    }

    /// True for a plain `void` (no pointers, no array): the C spelling of
    /// "no value".
    pub fn is_void(&self) -> (r: bool)
        ensures
            r == (self.base@ == "void"@ && self.pointers@.len() == 0 && self.array@.len() == 0),
    {
        str_eq_string(&self.base, "void") && self.pointers.len() == 0 && self.array.len() == 0
    }
}

/// `s == t`.
fn str_eq_string(s: &String, t: &str) -> (r: bool)
    ensures
        r == (s@ == t@),
{
    crate::text::str_eq(s.as_str(), t)
}

// ---------------------------------------------------------------------------
// What a declarator counts
// ---------------------------------------------------------------------------

/// How many times `c` occurs in `s`.
pub open spec fn occurrences(s: Seq<char>, c: char) -> nat
    decreases s.len(),
{
    if s.len() == 0 {
        0
    } else {
        occurrences(s.drop_last(), c) + if s.last() == c {
            1nat
        } else {
            0nat
        }
    }
}

/// Occurrences add up over a concatenation.
proof fn lemma_occurrences_add(a: Seq<char>, b: Seq<char>, c: char)
    ensures
        occurrences(a + b, c) == occurrences(a, c) + occurrences(b, c),
    decreases b.len(),
{
    if b.len() > 0 {
        lemma_occurrences_add(a, b.drop_last(), c);
        assert((a + b).drop_last() =~= a + b.drop_last());
    } else {
        assert(a + b =~= a);
    }
}

/// Occurrences add up over adjacent ranges.
proof fn lemma_occurrences_split(s: Seq<char>, a: int, b: int, e: int, c: char)
    requires
        0 <= a <= b <= e <= s.len(),
    ensures
        occurrences(s.subrange(a, e), c) == occurrences(s.subrange(a, b), c) + occurrences(s.subrange(b, e), c),
{
    assert(s.subrange(a, e) =~= s.subrange(a, b) + s.subrange(b, e));
    lemma_occurrences_add(s.subrange(a, b), s.subrange(b, e), c);
}

/// A text without `c` has no occurrence of it.
proof fn lemma_occurrences_none(s: Seq<char>, c: char)
    requires
        forall|k: int| 0 <= k < s.len() ==> s[k] != c,
    ensures
        occurrences(s, c) == 0,
    decreases s.len(),
{
    if s.len() > 0 {
        lemma_occurrences_none(s.drop_last(), c);
    }
}

/// A single character occurs once in itself.
proof fn lemma_occurrences_one(s: Seq<char>, p: int, c: char)
    requires
        0 <= p < s.len(),
    ensures
        occurrences(s.subrange(p, p + 1), c) == (if s[p] == c { 1nat } else { 0nat }),
{
    let one = s.subrange(p, p + 1);
    assert(one.drop_last() =~= Seq::<char>::empty());
    assert(occurrences(Seq::<char>::empty(), c) == 0);
    assert(one.last() == s[p]);
}

/// None of the three characters the declarator grammar counts.
pub open spec fn uncounted(ch: char) -> bool {
    ch != '*' && ch != '[' && ch != ':'
}

/// A range of uncounted characters holds none of the counted ones.
proof fn lemma_range_uncounted(s: Seq<char>, a: int, b: int)
    requires
        0 <= a <= b <= s.len(),
        forall|k: int| a <= k < b ==> uncounted(#[trigger] s[k]),
    ensures
        occurrences(s.subrange(a, b), '*') == 0,
        occurrences(s.subrange(a, b), '[') == 0,
        occurrences(s.subrange(a, b), ':') == 0,
{
    let r = s.subrange(a, b);
    assert forall|k: int| 0 <= k < r.len() implies uncounted(r[k]) by {
        assert(r[k] == s[a + k]);
    }
    lemma_occurrences_none(r, '*');
    lemma_occurrences_none(r, '[');
    lemma_occurrences_none(r, ':');
}

/// What `trim_start` drops is whitespace, and what it keeps is a suffix.
proof fn lemma_trim_start_shape(x: Seq<char>)
    ensures
        trim_start(x).len() <= x.len(),
        trim_start(x) == x.subrange(x.len() - trim_start(x).len(), x.len() as int),
        forall|k: int| 0 <= k < x.len() - trim_start(x).len() ==> is_space(#[trigger] x[k]),
    decreases x.len(),
{
    if x.len() > 0 && is_space(x[0]) {
        let y = x.drop_first();
        lemma_trim_start_shape(y);
        assert(y.subrange(y.len() - trim_start(y).len(), y.len() as int) =~= x.subrange(
            x.len() - trim_start(x).len(),
            x.len() as int,
        ));
        assert forall|k: int| 0 <= k < x.len() - trim_start(x).len() implies is_space(#[trigger] x[k]) by {
            if k > 0 {
                assert(x[k] == y[k - 1]);
            }
        }
    } else {
        assert(x.subrange(0, x.len() as int) =~= x);
    }
}

/// What `trim_end` drops is whitespace, and what it keeps is a prefix.
proof fn lemma_trim_end_shape(x: Seq<char>)
    ensures
        trim_end(x).len() <= x.len(),
        trim_end(x) == x.subrange(0, trim_end(x).len() as int),
        forall|k: int| trim_end(x).len() <= k < x.len() ==> is_space(#[trigger] x[k]),
    decreases x.len(),
{
    if x.len() > 0 && is_space(x.last()) {
        let y = x.drop_last();
        lemma_trim_end_shape(y);
        assert(y.subrange(0, trim_end(y).len() as int) =~= x.subrange(0, trim_end(x).len() as int));
        assert forall|k: int| trim_end(x).len() <= k < x.len() implies is_space(#[trigger] x[k]) by {
            if k < x.len() - 1 {
                assert(x[k] == y[k]);
            }
        }
    } else {
        assert(x.subrange(0, x.len() as int) =~= x);
    }
}

/// The whitespace `skip_ws` passes over.
proof fn lemma_skip_ws(s: Seq<char>, i: int)
    requires
        0 <= i <= s.len(),
    ensures
        i <= skip_ws(s, i) <= s.len(),
        forall|k: int| i <= k < skip_ws(s, i) ==> is_space(#[trigger] s[k]),
{
    let x = s.subrange(i, s.len() as int);
    lemma_trim_start_shape(x);
    assert forall|k: int| i <= k < skip_ws(s, i) implies is_space(#[trigger] s[k]) by {
        assert(s[k] == x[k - i]);
    }
}

/// Whitespace is none of the counted characters.
proof fn lemma_space_uncounted(ch: char)
    requires
        is_space(ch),
    ensures
        uncounted(ch),
{
}

/// An identifier run holds identifier characters only.
proof fn lemma_ident_run(s: Seq<char>, a: int)
    requires
        0 <= a <= s.len(),
    ensures
        forall|k: int| a <= k < ident_end(s, a) ==> is_ident_char(#[trigger] s[k]),
    decreases s.len() - a,
{
    if a < s.len() && is_ident_char(s[a]) {
        lemma_ident_run(s, a + 1);
    }
}

/// A digit run holds digits only, and never ends before it starts.
proof fn lemma_digit_run(s: Seq<char>, a: int)
    requires
        0 <= a <= s.len(),
    ensures
        a <= digit_end(s, a) <= s.len(),
        forall|k: int| a <= k < digit_end(s, a) ==> is_digit(#[trigger] s[k]),
    decreases s.len() - a,
{
    if a < s.len() && is_digit(s[a]) {
        lemma_digit_run(s, a + 1);
    }
}

/// The counted characters one token spans: a `*` for a pointer, a `[`
/// for a dimension, a `:` for a bitfield width, none for an identifier;
/// and the whitespace before the end of the text holds none.
proof fn lemma_token_counts(s: Seq<char>, i: int)
    requires
        0 <= i <= s.len(),
    ensures
        lex_at(s, i) matches Ok(None) ==> occurrences(s.subrange(i, s.len() as int), '*') == 0
            && occurrences(s.subrange(i, s.len() as int), '[') == 0
            && occurrences(s.subrange(i, s.len() as int), ':') == 0,
        lex_at(s, i) matches Ok(Some((t, j))) ==> i < j <= s.len()
            && occurrences(s.subrange(i, j), '*') == (if t is Star { 1nat } else { 0nat })
            && occurrences(s.subrange(i, j), '[') == (if t is Dim { 1nat } else { 0nat })
            && occurrences(s.subrange(i, j), ':') == (if t is Bits { 1nat } else { 0nat }),
{
    let p = skip_ws(s, i);
    lemma_skip_ws(s, i);
    assert forall|k: int| i <= k < p implies uncounted(#[trigger] s[k]) by {
        lemma_space_uncounted(s[k]);
    }
    lemma_range_uncounted(s, i, p);
    if p >= s.len() {
        return;
    }
    if s[p] == '*' {
        lemma_occurrences_split(s, i, p, p + 1, '*');
        lemma_occurrences_split(s, i, p, p + 1, '[');
        lemma_occurrences_split(s, i, p, p + 1, ':');
        lemma_occurrences_one(s, p, '*');
        lemma_occurrences_one(s, p, '[');
        lemma_occurrences_one(s, p, ':');
    } else if s[p] == '[' {
        let tail = s.subrange(p, s.len() as int);
        match find(tail, ']') {
            None => {},
            Some(k) => {
                if lex_at(s, i) is Ok {
                    assert(tail[0] == '[');
                    assert(first_at(tail, ']', k)) by {
                        assert(exists|q: int| first_at(tail, ']', q));
                    }
                    let x = s.subrange(p + 1, p + k);
                    let d = trim(x);
                    lemma_trim_start_shape(x);
                    lemma_trim_end_shape(trim_start(x));
                    let lead = x.len() - trim_start(x).len();
                    assert forall|q: int| p + 1 <= q < p + k implies uncounted(#[trigger] s[q]) by {
                        let r = q - (p + 1);
                        assert(s[q] == x[r]);
                        if r < lead {
                            lemma_space_uncounted(x[r]);
                        } else if r < lead + d.len() {
                            assert(trim_start(x)[r - lead] == x[r]);
                            assert(d[r - lead] == trim_start(x)[r - lead]);
                            assert(is_ident_char(d[r - lead]));
                        } else {
                            assert(trim_start(x)[r - lead] == x[r]);
                            lemma_space_uncounted(trim_start(x)[r - lead]);
                        }
                    }
                    assert(tail[k] == ']');
                    assert(s[p + k] == ']');
                    lemma_range_uncounted(s, p + 1, p + k);
                    lemma_occurrences_split(s, i, p, p + 1, '*');
                    lemma_occurrences_split(s, i, p, p + 1, '[');
                    lemma_occurrences_split(s, i, p, p + 1, ':');
                    lemma_occurrences_one(s, p, '*');
                    lemma_occurrences_one(s, p, '[');
                    lemma_occurrences_one(s, p, ':');
                    lemma_occurrences_split(s, i, p + 1, p + k, '*');
                    lemma_occurrences_split(s, i, p + 1, p + k, '[');
                    lemma_occurrences_split(s, i, p + 1, p + k, ':');
                    lemma_occurrences_split(s, i, p + k, p + k + 1, '*');
                    lemma_occurrences_split(s, i, p + k, p + k + 1, '[');
                    lemma_occurrences_split(s, i, p + k, p + k + 1, ':');
                    lemma_occurrences_one(s, p + k, '*');
                    lemma_occurrences_one(s, p + k, '[');
                    lemma_occurrences_one(s, p + k, ':');
                }
            },
        }
    } else if s[p] == ':' {
        let a = skip_ws(s, p + 1);
        lemma_skip_ws(s, p + 1);
        lemma_digit_run(s, a);
        let e = digit_end(s, a);
        assert forall|q: int| p + 1 <= q < e implies uncounted(#[trigger] s[q]) by {
            if q < a {
                lemma_space_uncounted(s[q]);
            } else {
                assert(is_digit(s[q]));
            }
        }
        lemma_range_uncounted(s, p + 1, e);
        lemma_occurrences_split(s, i, p, p + 1, '*');
        lemma_occurrences_split(s, i, p, p + 1, '[');
        lemma_occurrences_split(s, i, p, p + 1, ':');
        lemma_occurrences_one(s, p, '*');
        lemma_occurrences_one(s, p, '[');
        lemma_occurrences_one(s, p, ':');
        lemma_occurrences_split(s, i, p + 1, e, '*');
        lemma_occurrences_split(s, i, p + 1, e, '[');
        lemma_occurrences_split(s, i, p + 1, e, ':');
    } else if is_lower(s[p]) || is_upper(s[p]) || s[p] == '_' {
        lemma_ident_end_past(s, p);
        lemma_ident_run(s, p);
        let e = ident_end(s, p);
        assert(is_ident_char(s[p]));
        lemma_ident_end_past(s, p + 1);
        assert(e == ident_end(s, p + 1));
        assert forall|q: int| p <= q < e implies uncounted(#[trigger] s[q]) by {
            assert(is_ident_char(s[q]));
        }
        lemma_range_uncounted(s, p, e);
        lemma_occurrences_split(s, i, p, e, '*');
        lemma_occurrences_split(s, i, p, e, '[');
        lemma_occurrences_split(s, i, p, e, ':');
    }
}

/// Folding one token keeps the counts: a pointer level per `*`, a
/// dimension per `[`, and a bitfield once a `:` has been read.
proof fn lemma_parse_counts(s: Seq<char>, i: int, st: DeclState)
    requires
        0 <= i <= s.len(),
    ensures
        parse_from(s, i, st) matches Ok(st2) ==> st2.ty.pointers.len() == st.ty.pointers.len() + occurrences(
            s.subrange(i, s.len() as int),
            '*',
        ) && st2.ty.array.len() == st.ty.array.len() + occurrences(s.subrange(i, s.len() as int), '[')
            && (st2.ty.bitfield is Some <==> (st.ty.bitfield is Some || occurrences(
            s.subrange(i, s.len() as int),
            ':',
        ) > 0)),
    decreases s.len() - i,
{
    lemma_token_counts(s, i);
    match lex_at(s, i) {
        Ok(Some((t, j))) => {
            if i < j <= s.len() {
                match apply(st, t) {
                    Ok(st2) => {
                        lemma_parse_counts(s, j, st2);
                        lemma_occurrences_split(s, i, j, s.len() as int, '*');
                        lemma_occurrences_split(s, i, j, s.len() as int, '[');
                        lemma_occurrences_split(s, i, j, s.len() as int, ':');
                    },
                    Err(_) => {},
                }
            }
        },
        _ => {},
    }
}

/// An identifier word: a letter or `_`, then letters, digits and `_`.
pub open spec fn ident_word(w: Seq<char>) -> bool {
    &&& w.len() > 0
    &&& (is_lower(w[0]) || is_upper(w[0]) || w[0] == '_')
    &&& forall|k: int| 0 <= k < w.len() ==> is_ident_char(#[trigger] w[k])
}

/// `w` stands in `s` as it is.
pub open spec fn word_in(w: Seq<char>, s: Seq<char>) -> bool {
    exists|p: int| 0 <= p && p + w.len() <= s.len() && #[trigger] s.subrange(p, p + w.len()) == w
}

/// `base` is the words `ws` of `s` joined by single spaces; a base of
/// more than one word is made of C scalar keywords (`unsigned int`).
pub open spec fn base_spelled(base: Seq<char>, s: Seq<char>, ws: Seq<Seq<char>>) -> bool {
    &&& ws.len() > 0
    &&& base == crate::parse::types::joined(ws, " "@)
    &&& forall|k: int| 0 <= k < ws.len() ==> ident_word(#[trigger] ws[k]) && word_in(ws[k], s)
    &&& ws.len() > 1 ==> forall|k: int| 0 <= k < ws.len() ==> is_builtin(#[trigger] ws[k])
}

/// The base so far is empty or spelled by words of `s`, and a base that
/// may still grow is made of scalar keywords.
pub open spec fn base_so_far(st: DeclState, s: Seq<char>) -> bool {
    ||| st.ty.base.len() == 0 && !st.chaining
    ||| exists|ws: Seq<Seq<char>>| #[trigger] base_spelled(st.ty.base, s, ws)
        && (st.chaining ==> forall|k: int| 0 <= k < ws.len() ==> is_builtin(#[trigger] ws[k]))
}

/// An identifier token is an identifier word standing in the text.
proof fn lemma_ident_token(s: Seq<char>, i: int)
    requires
        0 <= i <= s.len(),
    ensures
        lex_at(s, i) matches Ok(Some((Tok::Ident(w), j))) ==> ident_word(w) && word_in(w, s),
{
    let p = skip_ws(s, i);
    lemma_skip_ws(s, i);
    if p < s.len() && s[p] != '*' && s[p] != '[' && s[p] != ':' && (is_lower(s[p]) || is_upper(s[p]) || s[p] == '_') {
        lemma_ident_end_past(s, p + 1);
        lemma_ident_run(s, p);
        let e = ident_end(s, p);
        assert(is_ident_char(s[p]));
        assert(e == ident_end(s, p + 1));
        let w = s.subrange(p, e);
        assert(forall|k: int| 0 <= k < w.len() ==> #[trigger] w[k] == s[p + k]);
        assert(s.subrange(p, p + w.len()) == w);
    }
}

/// Folding the tokens keeps the base spelled by words of the text.
proof fn lemma_parse_base(s: Seq<char>, i: int, st: DeclState)
    requires
        0 <= i <= s.len(),
        base_so_far(st, s),
    ensures
        parse_from(s, i, st) matches Ok(st2) ==> base_so_far(st2, s),
    decreases s.len() - i,
{
    lemma_ident_token(s, i);
    match lex_at(s, i) {
        Ok(Some((t, j))) => {
            if i < j <= s.len() {
                match apply(st, t) {
                    Ok(st2) => {
                        lemma_apply_base(st, t, s);
                        lemma_parse_base(s, j, st2);
                    },
                    Err(_) => {},
                }
            }
        },
        _ => {},
    }
}

/// One token keeps the base spelled by words of the text.
proof fn lemma_apply_base(st: DeclState, t: Tok, s: Seq<char>)
    requires
        base_so_far(st, s),
        t matches Tok::Ident(w) ==> ident_word(w) && word_in(w, s),
    ensures
        apply(st, t) matches Ok(st2) ==> base_so_far(st2, s),
{
    reveal_strlit(" ");
    if let Ok(st2) = apply(st, t) {
        match t {
            Tok::Ident(w) => {
                if st.chaining && is_builtin(w) {
                    let ws = choose|ws: Seq<Seq<char>>| #[trigger] base_spelled(st.ty.base, s, ws)
                        && (st.chaining ==> forall|k: int| 0 <= k < ws.len() ==> is_builtin(#[trigger] ws[k]));
                    let ws2 = ws.push(w);
                    assert(ws2.drop_last() =~= ws);
                    assert(st2.ty.base =~= crate::parse::types::joined(ws2, " "@));
                    assert forall|k: int| 0 <= k < ws2.len() implies ident_word(#[trigger] ws2[k]) && word_in(ws2[k], s) by {
                        if k < ws.len() {
                            assert(ws2[k] == ws[k]);
                        }
                    }
                    assert forall|k: int| 0 <= k < ws2.len() implies is_builtin(#[trigger] ws2[k]) by {
                        if k < ws.len() {
                            assert(ws2[k] == ws[k]);
                        }
                    }
                    assert(base_spelled(st2.ty.base, s, ws2));
                } else if w == "const"@ || w == "struct"@ {
                    if st.ty.base.len() > 0 {
                        let ws = choose|ws: Seq<Seq<char>>| #[trigger] base_spelled(st.ty.base, s, ws)
                            && (st.chaining ==> forall|k: int| 0 <= k < ws.len() ==> is_builtin(#[trigger] ws[k]));
                        assert(base_spelled(st2.ty.base, s, ws));
                    }
                } else if st.ty.base.len() == 0 {
                    let ws2 = seq![w];
                    assert(st2.ty.base =~= crate::parse::types::joined(ws2, " "@));
                    assert(base_spelled(st2.ty.base, s, ws2));
                } else {
                    let ws = choose|ws: Seq<Seq<char>>| #[trigger] base_spelled(st.ty.base, s, ws)
                        && (st.chaining ==> forall|k: int| 0 <= k < ws.len() ==> is_builtin(#[trigger] ws[k]));
                    assert(base_spelled(st2.ty.base, s, ws));
                }
            },
            _ => {
                if st.ty.base.len() > 0 {
                    let ws = choose|ws: Seq<Seq<char>>| #[trigger] base_spelled(st.ty.base, s, ws)
                        && (st.chaining ==> forall|k: int| 0 <= k < ws.len() ==> is_builtin(#[trigger] ws[k]));
                    assert(base_spelled(st2.ty.base, s, ws));
                }
            },
        }
    }
}

/// A parsed declarator's base type is its words joined by single spaces:
/// identifier words that stand in the text, one word, or several C scalar
/// keywords (`unsigned long int`).
pub proof fn lemma_declarator_base(s: Seq<char>)
    ensures
        declarator(s) matches Ok(t) ==> exists|ws: Seq<Seq<char>>| #[trigger] base_spelled(t.base, s, ws),
{
    let st = DeclState { ty: empty_view(), chaining: false };
    lemma_parse_base(s, 0, st);
}

/// What a parsed declarator counts of its text: one pointer level per
/// `*`, one array dimension per `[`, a bitfield width exactly when the
/// text holds a `:`, and always a base type, which is its words joined by
/// single spaces; a text outside the grammar is refused with a message
/// that ends by quoting it.
pub proof fn lemma_declarator_counts(s: Seq<char>)
    ensures
        declarator(s) matches Ok(t) ==> t.pointers.len() == occurrences(s, '*') && t.array.len() == occurrences(s, '[')
            && (t.bitfield is Some <==> occurrences(s, ':') > 0) && t.base.len() > 0,
        declarator(s) matches Ok(t) ==> exists|ws: Seq<Seq<char>>| #[trigger] base_spelled(t.base, s, ws),
        declarator(s) matches Err(f) ==> (" in C declarator '"@ + s + "'"@).is_suffix_of(
            crate::error::fault_text(Fault::Declarator(f, s)),
        ),
{
    let st = DeclState { ty: empty_view(), chaining: false };
    lemma_parse_counts(s, 0, st);
    lemma_declarator_base(s);
    assert(s.subrange(0, s.len() as int) =~= s);
    if declarator(s) is Err {
        let f = declarator(s)->Err_0;
        let at = " in C declarator '"@ + s + "'"@;
        let t = crate::error::fault_text(Fault::Declarator(f, s));
        assert(exists|pre: Seq<char>| t == pre + at);
        let pre = choose|pre: Seq<char>| t == pre + at;
        assert(t.subrange(t.len() - at.len(), t.len() as int) =~= at);
    }
}

} // verus!
