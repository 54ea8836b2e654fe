//! Inline record bodies: the GL-family registries write some structs and
//! unions as raw C text (`struct Name { decl; ... };` or
//! `typedef struct/union [tag] { decl; ... } Name;`), read here into their
//! members.

use vstd::prelude::*;

use crate::parse::ctype::{declarator, TypeRef, TypeView};
use crate::parse::signatures::{rfind, texts_of};
use crate::parse::types::{strip_block_comments, stripped};
use crate::parse::signatures::rfind_in;
use crate::text::{
    ascii_digit, chars_of, find, find_in, ident_char, is_alnum, is_digit, pieces, push_str, split,
    split_ranges, string_between, string_from_chars, trim, trim_bounds,
};

verus! {

/// A member of an inline record: its declarator text, name and type.
#[derive(Debug)]
pub struct RecordMember {
    pub raw_c: String,
    pub name: String,
    pub ty: TypeRef,
}

/// The content of a [`RecordMember`].
pub struct RecordMemberView {
    pub raw_c: Seq<char>,
    pub name: Seq<char>,
    pub ty: TypeView,
}

impl View for RecordMember {
    type V = RecordMemberView;

    open spec fn view(&self) -> RecordMemberView {
        RecordMemberView { raw_c: self.raw_c@, name: self.name@, ty: self.ty@ }
    }
}

/// The members' contents.
pub open spec fn record_views(v: Seq<RecordMember>) -> Seq<RecordMemberView> {
    v.map_values(|m: RecordMember| m@)
}

/// `first` up to its last space (all of it when it has none).
pub open spec fn before_last_space(first: Seq<char>) -> Seq<char> {
    match rfind(first, ' ') {
        Some(i) => first.take(i),
        None => first,
    }
}

/// A bare identifier that may share the first declarator's type: ASCII
/// letters, digits and `_`, not starting with a digit.
pub open spec fn bare_ident(e: Seq<char>) -> bool {
    &&& e.len() > 0
    &&& forall|k: int| 0 <= k < e.len() ==> is_alnum(#[trigger] e[k]) || e[k] == '_'
    &&& !is_digit(e[0])
}

/// The members the further pieces of a multi-declarator line add, each a
/// bare name sharing the first declarator's type.
pub open spec fn extra_members(first: Seq<char>, ty: TypeView, extras: Seq<Seq<char>>) -> Option<Seq<RecordMemberView>>
    decreases extras.len(),
{
    if extras.len() == 0 {
        Some(Seq::empty())
    } else {
        match extra_members(first, ty, extras.drop_last()) {
            None => None,
            Some(init) => {
                let e = trim(extras.last());
                if bare_ident(e) {
                    Some(init.push(RecordMemberView {
                        raw_c: before_last_space(first) + " "@ + e,
                        name: e,
                        ty: TypeView { decl_name: Some(e), ..ty },
                    }))
                } else {
                    None
                }
            },
        }
    }
}

/// The members one `;`-separated declaration gives: none when it is
/// blank; else its first declarator, which must parse and name a member,
/// and the bare names after it.
pub open spec fn decl_members(decl: Seq<char>) -> Option<Seq<RecordMemberView>> {
    let d = trim(decl);
    if d.len() == 0 {
        Some(Seq::empty())
    } else {
        let ps = split(d, ',');
        let first = trim(ps[0]);
        match declarator(first) {
            Ok(ty) => match ty.decl_name {
                Some(name) => match extra_members(first, ty, ps.drop_first()) {
                    Some(more) => Some(seq![RecordMemberView { raw_c: first, name, ty }] + more),
                    None => None,
                },
                None => None,
            },
            Err(_) => None,
        }
    }
}

/// The members of the declarations, in order.
pub open spec fn decls_members(decls: Seq<Seq<char>>) -> Option<Seq<RecordMemberView>>
    decreases decls.len(),
{
    if decls.len() == 0 {
        Some(Seq::empty())
    } else {
        match (decls_members(decls.drop_last()), decl_members(decls.last())) {
            (Some(a), Some(b)) => Some(a + b),
            _ => None,
        }
    }
}

/// The members of an inline record body: the declarations between the
/// first `{` and the last `}`, comments removed; `None` when there are no
/// braces, a declaration does not parse, or there is no member at all.
pub open spec fn record_members(raw: Seq<char>) -> Option<Seq<RecordMemberView>> {
    match (find(raw, '{'), rfind(raw, '}')) {
        (Some(open), Some(close)) => if close < open {
            None
        } else {
            match decls_members(split(stripped(raw.subrange(open + 1, close)), ';')) {
                Some(ms) => if ms.len() > 0 {
                    Some(ms)
                } else {
                    None
                },
                None => None,
            }
        },
        _ => None,
    }
}

/// Splitting always gives at least one piece.
proof fn lemma_split_nonempty(x: Seq<char>, c: char)
    ensures
        split(x, c).len() >= 1,
{
    reveal(split);
}

/// Whether `s[lo..hi]` is a bare identifier.
fn bare_ident_at(s: &[char], lo: usize, hi: usize) -> (r: bool)
    requires
        lo <= hi <= s@.len(),
    ensures
        r == bare_ident(s@.subrange(lo as int, hi as int)),
{
    let ghost e = s@.subrange(lo as int, hi as int);
    if lo == hi || ascii_digit(s[lo]) {
        return false;
    }
    let mut k = lo;
    while k < hi
        invariant
            lo <= k <= hi <= s@.len(),
            e == s@.subrange(lo as int, hi as int),
            forall|q: int| 0 <= q < k - lo ==> is_alnum(#[trigger] e[q]) || e[q] == '_',
        decreases hi - k,
    {
        if !ident_char(s[k]) {
            assert(!(is_alnum(e[k - lo]) || e[k - lo] == '_'));
            return false;
        }
        k = k + 1;
    }
    true
}

/// The members of the declaration `s[lo..hi]`.
fn decl_members_at(s: &[char], lo: usize, hi: usize) -> (r: Option<Vec<RecordMember>>)
    requires
        lo <= hi <= s@.len(),
    ensures
        match decl_members(s@.subrange(lo as int, hi as int)) {
            Some(v) => r matches Some(x) && record_views(x@) == v,
            None => r is None,
        },
{
    let (a, b) = trim_bounds(s, lo, hi);
    let ghost d = s@.subrange(a as int, b as int);
    if a == b {
        let out: Vec<RecordMember> = Vec::new();
        assert(record_views(out@) =~= Seq::<RecordMemberView>::empty());
        return Some(out);
    }
    let ranges = split_ranges(s, ',', a, b);
    let ghost ps = split(d, ',');
    proof {
        lemma_split_nonempty(d, ',');
        assert(pieces(s@, ranges@) == ps);
    }
    let (r0, r1) = ranges[0];
    assert(ps[0] == s@.subrange(r0 as int, r1 as int));
    let (f0, f1) = trim_bounds(s, r0, r1);
    let first = string_between(s, f0, f1);
    let ty = match TypeRef::parse(first.as_str()) {
        Ok(t) => t,
        Err(_) => return None,
    };
    let name = match &ty.decl_name {
        Some(n) => n.clone(),
        None => return None,
    };
    let fc = chars_of(first.as_str());
    assert(fc@.subrange(0, fc@.len() as int) =~= first@);
    let stem = match rfind_in(fc.as_slice(), ' ', 0, fc.len()) {
        Some(i) => string_between(fc.as_slice(), 0, i),
        None => first.clone(),
    };
    assert(stem@ == before_last_space(first@)) by {
        if rfind(first@, ' ') is Some {
            assert(first@.take(rfind(first@, ' ')->Some_0) =~= fc@.subrange(0, rfind(first@, ' ')->Some_0));
        }
    }
    let ghost tyv = ty@;
    let mut out: Vec<RecordMember> = Vec::new();
    out.push(RecordMember { raw_c: first.clone(), name, ty });
    let ghost m0 = out@[0]@;
    let ghost extras = ps.drop_first();
    let mut j: usize = 1;
    assert(extras.take(0) =~= Seq::<Seq<char>>::empty());
    assert(record_views(out@) =~= seq![m0] + Seq::<RecordMemberView>::empty());
    while j < ranges.len()
        invariant
            1 <= j <= ranges@.len(),
            ranges@.len() == ps.len(),
            pieces(s@, ranges@) == ps,
            extras == ps.drop_first(),
            forall|q: int| 0 <= q < ranges@.len() ==> a <= #[trigger] ranges@[q].0 <= ranges@[q].1 <= b,
            b <= s@.len(),
            declarator(first@) == Ok::<TypeView, crate::error::DeclFault>(tyv),
            stem@ == before_last_space(first@),
            m0 == (RecordMemberView { raw_c: first@, name: tyv.decl_name->Some_0, ty: tyv }),
            tyv.decl_name is Some,
            ps == split(d, ','),
            d == trim(s@.subrange(lo as int, hi as int)),
            d.len() > 0,
            first@ == trim(ps[0]),
            extra_members(first@, tyv, extras.take(j - 1)) matches Some(es) && record_views(out@) == seq![m0] + es,
        decreases ranges@.len() - j,
    {
        let (e0, e1) = ranges[j];
        assert(ps[j as int] == s@.subrange(e0 as int, e1 as int));
        assert(extras.take(j as int) =~= extras.take(j - 1).push(ps[j as int]));
        assert(extras.take(j as int).drop_last() =~= extras.take(j - 1));
        let (t0, t1) = trim_bounds(s, e0, e1);
        if !bare_ident_at(s, t0, t1) {
            proof {
                lemma_extra_members_stays_none(first@, tyv, extras, j as int);
            }
            return None;
        }
        let e = string_between(s, t0, t1);
        let mut raw_c: Vec<char> = chars_of(stem.as_str());
        push_str(&mut raw_c, " ");
        push_str(&mut raw_c, e.as_str());
        let mut t = match TypeRef::parse(first.as_str()) {
            Ok(t) => t,
            Err(_) => return None,
        };
        t.decl_name = Some(e.clone());
        let ghost before = record_views(out@);
        out.push(RecordMember { raw_c: string_from_chars(raw_c.as_slice()), name: e, ty: t });
        proof {
            assert(record_views(out@) =~= before.push(out@.last()@));
            assert(out@.last()@.ty =~= (TypeView { decl_name: Some(trim(ps[j as int])), ..tyv }));
        }
        j = j + 1;
    }
    assert(extras.take(ranges@.len() - 1) =~= extras);
    Some(out)
}

/// Once the extra pieces fail, longer lists fail too.
proof fn lemma_extra_members_stays_none(first: Seq<char>, ty: TypeView, extras: Seq<Seq<char>>, k: int)
    requires
        0 <= k <= extras.len(),
        extra_members(first, ty, extras.take(k)) is None,
    ensures
        extra_members(first, ty, extras) is None,
    decreases extras.len() - k,
{
    if k < extras.len() {
        assert(extras.take(k + 1).drop_last() =~= extras.take(k));
        lemma_extra_members_stays_none(first, ty, extras, k + 1);
    } else {
        assert(extras.take(k) =~= extras);
    }
}

/// Once a declaration fails, longer lists fail too.
proof fn lemma_decls_members_stays_none(decls: Seq<Seq<char>>, k: int)
    requires
        0 <= k <= decls.len(),
        decls_members(decls.take(k)) is None,
    ensures
        decls_members(decls) is None,
    decreases decls.len() - k,
{
    if k < decls.len() {
        assert(decls.take(k + 1).drop_last() =~= decls.take(k));
        lemma_decls_members_stays_none(decls, k + 1);
    } else {
        assert(decls.take(k) =~= decls);
    }
}

/// Read an inline record body into its members: the declarations between
/// the first `{` and the last `}`, comments removed, split at `;`; a
/// declaration may continue with bare names after commas (`int x, y;`),
/// which share its type.  `None` when the body has no braces in order, a
/// declaration does not parse, or there is no member.
pub fn record_text_payload(raw: &str) -> (r: Option<Vec<RecordMember>>)
    ensures
        match record_members(raw@) {
            Some(v) => r matches Some(x) && record_views(x@) == v,
            None => r is None,
        },
{
    let c = chars_of(raw);
    let n = c.len();
    assert(c@.subrange(0, n as int) =~= raw@);
    let open = match find_in(c.as_slice(), '{', 0, n) {
        Some(o) => o,
        None => return None,
    };
    let close = match rfind_in(c.as_slice(), '}', 0, n) {
        Some(x) => x,
        None => return None,
    };
    if close < open {
        return None;
    }
    let inner = string_between(c.as_slice(), open + 1, close);
    let body = strip_block_comments(inner.as_str());
    let bc = chars_of(body.as_str());
    assert(bc@.subrange(0, bc@.len() as int) =~= bc@);
    let ranges = split_ranges(bc.as_slice(), ';', 0, bc.len());
    let ghost decls = split(stripped(raw@.subrange(open + 1, close as int)), ';');
    assert(pieces(bc@, ranges@) == decls);
    assert(find(raw@, '{') == Some(open as int));
    assert(rfind(raw@, '}') == Some(close as int));
    let mut members: Vec<RecordMember> = Vec::new();
    let mut k: usize = 0;
    assert(decls.take(0) =~= Seq::<Seq<char>>::empty());
    assert(record_views(members@) =~= Seq::<RecordMemberView>::empty());
    while k < ranges.len()
        invariant
            k <= ranges@.len(),
            ranges@.len() == decls.len(),
            pieces(bc@, ranges@) == decls,
            find(raw@, '{') == Some(open as int),
            rfind(raw@, '}') == Some(close as int),
            open <= close,
            decls == split(stripped(raw@.subrange(open + 1, close as int)), ';'),
            forall|q: int| 0 <= q < ranges@.len() ==> 0 <= #[trigger] ranges@[q].0 <= ranges@[q].1 <= bc@.len(),
            decls_members(decls.take(k as int)) matches Some(ms) && record_views(members@) == ms,
        decreases ranges@.len() - k,
    {
        let (lo, hi) = ranges[k];
        assert(decls[k as int] == bc@.subrange(lo as int, hi as int));
        assert(decls.take(k + 1).drop_last() =~= decls.take(k as int));
        assert(decls.take(k + 1).last() == decls[k as int]);
        match decl_members_at(bc.as_slice(), lo, hi) {
            None => {
                proof {
                    lemma_decls_members_stays_none(decls, k + 1);
                }
                return None;
            },
            Some(mut more) => {
                let ghost before = record_views(members@);
                let ghost add = record_views(more@);
                members.append(&mut more);
                assert(record_views(members@) =~= before + add);
            },
        }
        k = k + 1;
    }
    assert(decls.take(ranges@.len() as int) =~= decls);
    if members.len() == 0 {
        None
    } else {
        Some(members)
    }
}

} // verus!
