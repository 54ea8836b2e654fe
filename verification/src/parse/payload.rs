//! The structured form of a text-form registry type, chosen by the shape
//! of its C text.

use vstd::prelude::*;

use crate::parse::records::{record_members, record_text_payload, record_views, RecordMember, RecordMemberView};
use crate::parse::signatures::{funcpointer_sig, parse_funcpointer_text, FnSigView, RawFnSig};
use crate::parse::typedefs::{arm_views, starts, typedef_arms, typedef_text_payload, ArmView, TypedefArm};
use crate::text::{chars_of, find, find_in, range_eq, skip_space, trim_start};

verus! {

/// What a type's C text is, structurally.
#[derive(Debug)]
pub enum TypePayload {
    /// No structured form.
    Opaque,
    /// Plain or preprocessor-conditional typedefs.
    Typedef(Vec<TypedefArm>),
    /// A function-pointer typedef.
    Funcpointer(RawFnSig),
    /// An inline record's members.
    Members(Vec<RecordMember>),
}

/// The content of a [`TypePayload`].
pub enum PayloadView {
    Opaque,
    Typedef(Seq<ArmView>),
    Funcpointer(FnSigView),
    Members(Seq<RecordMemberView>),
}

impl View for TypePayload {
    type V = PayloadView;

    open spec fn view(&self) -> PayloadView {
        match self {
            TypePayload::Opaque => PayloadView::Opaque,
            TypePayload::Typedef(a) => PayloadView::Typedef(arm_views(a@)),
            TypePayload::Funcpointer(s) => PayloadView::Funcpointer(s@),
            TypePayload::Members(m) => PayloadView::Members(record_views(m@)),
        }
    }
}

/// The payload a C text gives, by its shape: an inline record (`typedef
/// struct`/`typedef union` or `struct` with a `{`), a function-pointer
/// typedef (`typedef` with a `(`), plain or conditional typedefs
/// (`typedef` or `#if`), anything else opaque.  Records are recognised
/// before function pointers, so a parenthesis in a member comment cannot
/// misroute a record body.
pub open spec fn text_payload_of(raw: Seq<char>) -> PayloadView {
    let t = trim_start(raw);
    let brace = find(t, '{') is Some;
    if ((starts(t, "typedef struct"@) || starts(t, "typedef union"@)) && brace) || (starts(t, "struct"@) && brace) {
        match record_members(raw) {
            Some(ms) => PayloadView::Members(ms),
            None => PayloadView::Opaque,
        }
    } else if starts(t, "typedef"@) && find(t, '(') is Some {
        match funcpointer_sig(raw) {
            Some(sig) => PayloadView::Funcpointer(sig),
            None => PayloadView::Opaque,
        }
    } else if starts(t, "typedef"@) || starts(t, "#if"@) {
        match typedef_arms(raw) {
            Some(arms) => PayloadView::Typedef(arms),
            None => PayloadView::Opaque,
        }
    } else {
        PayloadView::Opaque
    }
}

/// Whether `s[a..n]` starts with `p`.
fn starts_at(s: &[char], a: usize, p: &str) -> (r: bool)
    requires
        a <= s@.len(),
    ensures
        r == starts(s@.subrange(a as int, s@.len() as int), p@),
{
    let pc = chars_of(p);
    let n = s.len();
    let ghost t = s@.subrange(a as int, n as int);
    if n - a < pc.len() {
        return false;
    }
    let r = range_eq(s, a, a + pc.len(), p);
    assert(t.take(p@.len() as int) =~= s@.subrange(a as int, a + pc.len()));
    r
}

/// The structured form of a type's C text (see [`text_payload_of`]).
pub fn text_payload(raw: &str) -> (r: TypePayload)
    ensures
        r@ == text_payload_of(raw@),
{
    let c = chars_of(raw);
    let n = c.len();
    assert(c@.subrange(0, n as int) =~= raw@);
    let a = skip_space(c.as_slice(), 0, n);
    let ghost t = c@.subrange(a as int, n as int);
    assert(t == trim_start(raw@));
    let brace = find_in(c.as_slice(), '{', a, n).is_some();
    let record = (starts_at(c.as_slice(), a, "typedef struct") || starts_at(c.as_slice(), a, "typedef union")) && brace;
    if record || (starts_at(c.as_slice(), a, "struct") && brace) {
        match record_text_payload(raw) {
            Some(ms) => TypePayload::Members(ms),
            None => TypePayload::Opaque,
        }
    } else if starts_at(c.as_slice(), a, "typedef") && find_in(c.as_slice(), '(', a, n).is_some() {
        match parse_funcpointer_text(raw) {
            Some(sig) => TypePayload::Funcpointer(sig),
            None => TypePayload::Opaque,
        }
    } else if starts_at(c.as_slice(), a, "typedef") || starts_at(c.as_slice(), a, "#if") {
        match typedef_text_payload(raw) {
            Some(arms) => TypePayload::Typedef(arms),
            None => TypePayload::Opaque,
        }
    } else {
        TypePayload::Opaque
    }
}

} // verus!
