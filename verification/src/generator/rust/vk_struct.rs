//! Vulkan structs and unions as Rust items: each member becomes a field,
//! except that a run of consecutive C bitfield members shares one `u32`
//! carrier field, read and written through generated accessor methods.

use vstd::prelude::*;

use crate::error::{Error, Fault};
use crate::generator::c::{hex, push_hex};
use crate::generator::rust::abi::{abi_scalar_text, is_rust_keyword, sanitize_ident};
use crate::generator::rust::vk_types::{
    append, base_check, check_base, has_prefix, platform_decl_text, recorded_platform, vk_type,
    vk_type_text,
};
use crate::ir::texts;
use crate::parse::ctype::{TypeRef, TypeView};
use crate::parse::types::{joined, push_joined};
use crate::text::{decimal, push_decimal, push_str, string_from_chars};

verus! {

// ---------------------------------------------------------------------------
// Members and fields
// ---------------------------------------------------------------------------

/// A struct or union member: its name and its C declarator.
#[derive(Debug)]
pub struct Member {
    pub name: String,
    pub ty: TypeRef,
}

/// The content of a [`Member`].
pub struct MemberView {
    pub name: Seq<char>,
    pub ty: TypeView,
}

impl View for Member {
    type V = MemberView;

    open spec fn view(&self) -> MemberView {
        MemberView { name: self.name@, ty: self.ty@ }
    }
}

/// The members' contents.
pub open spec fn member_views(ms: Seq<Member>) -> Seq<MemberView> {
    ms.map_values(|m: Member| m@)
}

/// A field of the emitted item: one member, or a run of bitfield members
/// packed into one `u32`.
pub enum FieldPlan {
    Plain(MemberView),
    Packed(Seq<MemberView>),
}

/// The bitfield width of a member (0 for an ordinary member).
pub open spec fn width_of(m: MemberView) -> nat {
    match m.ty.bitfield {
        Some(w) => w as nat,
        None => 0,
    }
}

/// No bitfield is wider than 32 bits.
pub open spec fn bitfields_fit(ms: Seq<MemberView>) -> bool {
    forall|i: int| 0 <= i < ms.len() ==> width_of(#[trigger] ms[i]) <= 32
}

/// The bits a run of bitfield members takes.
pub open spec fn run_bits(run: Seq<MemberView>) -> nat
    decreases run.len(),
{
    if run.len() == 0 {
        0
    } else {
        run_bits(run.drop_last()) + width_of(run.last())
    }
}

/// The fields the members make, in order: each ordinary member is a field
/// of its own; a bitfield member joins the run just before it while the
/// run stays within 32 bits, and otherwise starts a new run.
pub open spec fn field_plan(ms: Seq<MemberView>) -> Seq<FieldPlan>
    decreases ms.len(),
{
    if ms.len() == 0 {
        Seq::empty()
    } else {
        let f = field_plan(ms.drop_last());
        let m = ms.last();
        match m.ty.bitfield {
            None => f.push(FieldPlan::Plain(m)),
            Some(w) => match (if f.len() > 0 { Some(f.last()) } else { None }) {
                Some(FieldPlan::Packed(run)) => if run_bits(run) + w <= 32 {
                    f.drop_last().push(FieldPlan::Packed(run.push(m)))
                } else {
                    f.push(FieldPlan::Packed(seq![m]))
                },
                _ => f.push(FieldPlan::Packed(seq![m])),
            },
        }
    }
}

// ---------------------------------------------------------------------------
// Text
// ---------------------------------------------------------------------------

/// A member name as a Rust identifier (keywords get a trailing `_`).
pub open spec fn ident_text(n: Seq<char>) -> Seq<char> {
    if is_rust_keyword(n) {
        n.push('_')
    } else {
        n
    }
}

/// The carrier field of a run: the members' names joined by `_and_`.
pub open spec fn packed_name(run: Seq<MemberView>) -> Seq<char> {
    joined(run.map_values(|m: MemberView| m.name), "_and_"@)
}

/// The mask of a bitfield `w` bits wide.
pub open spec fn mask_of(w: u32) -> nat {
    if w >= 32 {
        0xffff_ffff
    } else {
        ((1u32 << w) - 1) as nat
    }
}

/// The doc line of a bitfield accessor pair.
pub open spec fn accessor_doc(field: Seq<char>, m: MemberView, shift: nat) -> Seq<char> {
    let w = width_of(m);
    "    /// Bits "@ + decimal(shift) + ".."@ + decimal(shift + w) + " of `"@ + field + "` (C bitfield `"@
        + m.name + ":"@ + decimal(w) + "`).\n"@
}

/// The getter of a bitfield member.
pub open spec fn getter_text(field: Seq<char>, m: MemberView, sh: Seq<char>, mask: Seq<char>) -> Seq<char> {
    "    #[inline]\n    pub fn "@ + m.name + "(&self) -> u32 {\n        (self."@ + field + " >> "@ + sh
        + ") & 0x"@ + mask + "\n    }\n"@
}

/// The setter of a bitfield member.
pub open spec fn setter_text(field: Seq<char>, m: MemberView, sh: Seq<char>, mask: Seq<char>) -> Seq<char> {
    "    #[inline]\n    pub fn set_"@ + m.name + "(&mut self, v: u32) {\n        self."@ + field
        + " = (self."@ + field + " & !(0x"@ + mask + " << "@ + sh + ")) | ((v & 0x"@ + mask + ") << "@
        + sh + ");\n    }\n"@
}

/// The getter and setter of the bitfield member `m`, `shift` bits into the
/// carrier field `field`.
pub open spec fn accessor_text(field: Seq<char>, m: MemberView, shift: nat) -> Seq<char> {
    let mask = hex(mask_of(width_of(m) as u32));
    accessor_doc(field, m, shift) + getter_text(field, m, decimal(shift), mask) + setter_text(
        field,
        m,
        decimal(shift),
        mask,
    )
}

/// The accessors of the first `k` members of a run.
pub open spec fn run_accessors(field: Seq<char>, run: Seq<MemberView>, k: int) -> Seq<char>
    decreases k,
{
    if k <= 0 {
        Seq::empty()
    } else {
        run_accessors(field, run, k - 1) + accessor_text(field, run[k - 1], run_bits(run.take(k - 1)))
    }
}

/// The declaration line of a field.
pub open spec fn field_line(f: FieldPlan) -> Seq<char> {
    match f {
        FieldPlan::Plain(m) => "    pub "@ + ident_text(m.name) + ": "@ + vk_type_text(m.ty) + ",\n"@,
        FieldPlan::Packed(run) => "    pub "@ + packed_name(run) + ": u32,\n"@,
    }
}

/// The accessors a field needs (none for an ordinary member).
pub open spec fn field_accessors(f: FieldPlan) -> Seq<char> {
    match f {
        FieldPlan::Plain(_) => Seq::empty(),
        FieldPlan::Packed(run) => run_accessors(packed_name(run), run, run.len() as int),
    }
}

/// The declaration lines of the first `n` fields.
pub open spec fn field_lines(fs: Seq<FieldPlan>, n: int) -> Seq<char>
    decreases n,
{
    if n <= 0 {
        Seq::empty()
    } else {
        field_lines(fs, n - 1) + field_line(fs[n - 1])
    }
}

/// The accessors of the first `n` fields.
pub open spec fn accessors_of(fs: Seq<FieldPlan>, n: int) -> Seq<char>
    decreases n,
{
    if n <= 0 {
        Seq::empty()
    } else {
        accessors_of(fs, n - 1) + field_accessors(fs[n - 1])
    }
}

/// The Rust item for the struct (or union) `name` with members `ms`: the
/// `#[repr(C)]` declaration with one line per field, then, when some field
/// packs bitfields, an `impl` block with their accessors.
pub open spec fn vk_struct_text(name: Seq<char>, is_union: bool, ms: Seq<MemberView>) -> Seq<char> {
    let fs = field_plan(ms);
    let acc = accessors_of(fs, fs.len() as int);
    "#[repr(C)]\n#[derive(Copy, Clone)]\npub "@ + (if is_union { "union"@ } else { "struct"@ }) + " "@
        + name + " {\n"@ + field_lines(fs, fs.len() as int) + "}\n"@ + (if acc.len() == 0 {
        Seq::empty()
    } else {
        "impl "@ + name + " {\n"@ + acc + "}\n"@
    })
}

// ---------------------------------------------------------------------------
// Base checks
// ---------------------------------------------------------------------------

/// The platform types recorded after checking one base.
pub open spec fn after_check(used: Seq<Seq<char>>, b: Seq<char>) -> Seq<Seq<char>> {
    if abi_scalar_text(b) is None && platform_decl_text(b) is Some {
        recorded_platform(used, b)
    } else {
        used
    }
}

/// The platform types recorded after checking the first `k` members.
pub open spec fn platforms_after(used: Seq<Seq<char>>, ms: Seq<MemberView>, k: int) -> Seq<Seq<char>>
    decreases k,
{
    if k <= 0 {
        used
    } else {
        after_check(platforms_after(used, ms, k - 1), ms[k - 1].ty.base)
    }
}

/// Member `k` is the first whose base is refused.
pub open spec fn first_refused(ms: Seq<MemberView>, defined: Seq<Seq<char>>, k: int) -> bool {
    &&& 0 <= k < ms.len()
    &&& base_check(ms[k].ty.base, defined) is Err
    &&& forall|j: int| 0 <= j < k ==> #[trigger] base_check(ms[j].ty.base, defined) is Ok
}

// ---------------------------------------------------------------------------
// Emission
// ---------------------------------------------------------------------------

/// A planned field, by member index.
enum Slot {
    Plain(usize),
    /// The members of a run and the bits they take.
    Packed(Vec<usize>, u32),
}

/// The field a slot stands for.
spec fn slot_view(sl: Slot, ms: Seq<MemberView>) -> FieldPlan {
    match sl {
        Slot::Plain(i) => FieldPlan::Plain(ms[i as int]),
        Slot::Packed(idx, _) => FieldPlan::Packed(idx@.map_values(|i: usize| ms[i as int])),
    }
}

/// The fields the slots stand for.
spec fn slots_view(sls: Seq<Slot>, ms: Seq<MemberView>) -> Seq<FieldPlan> {
    sls.map_values(|sl: Slot| slot_view(sl, ms))
}

/// A slot names members that exist; a run holds bitfield members only,
/// and its count of bits is right.
spec fn slot_ok(sl: Slot, ms: Seq<MemberView>) -> bool {
    match sl {
        Slot::Plain(i) => i < ms.len(),
        Slot::Packed(idx, used) => (forall|t: int|
            0 <= t < idx@.len() ==> #[trigger] idx@[t] < ms.len() && ms[idx@[t] as int].ty.bitfield is Some)
            && used == run_bits(idx@.map_values(|i: usize| ms[i as int])) && used <= 32,
    }
}

/// Every slot is right.
spec fn slots_ok(sls: Seq<Slot>, ms: Seq<MemberView>) -> bool {
    forall|j: int| 0 <= j < sls.len() ==> #[trigger] slot_ok(sls[j], ms)
}

/// A run takes at least the bits of any of its prefixes.
proof fn lemma_run_bits_prefix(run: Seq<MemberView>, k: int)
    requires
        0 <= k <= run.len(),
    ensures
        run_bits(run.take(k)) <= run_bits(run),
    decreases run.len() - k,
{
    if k < run.len() {
        lemma_run_bits_prefix(run, k + 1);
        assert(run.take(k + 1).drop_last() =~= run.take(k));
    } else {
        assert(run.take(k) =~= run);
    }
}

/// A run that gains one member gains its bits.
proof fn lemma_run_bits_push(run: Seq<MemberView>, m: MemberView)
    ensures
        run_bits(run.push(m)) == run_bits(run) + width_of(m),
{
    assert(run.push(m).drop_last() =~= run);
}

/// The accessors of a run, one more member at a time.
proof fn lemma_run_accessors_step(field: Seq<char>, run: Seq<MemberView>, k: int)
    requires
        0 <= k < run.len(),
    ensures
        run_accessors(field, run, k + 1) == run_accessors(field, run, k) + accessor_text(field, run[k], run_bits(run.take(k))),
{
}

/// The mask of a bitfield of `w` bits, `w` at most 32.
fn bit_mask(w: u32) -> (r: u32)
    requires
        w <= 32,
    ensures
        r as nat == mask_of(w),
{
    if w == 32 {
        0xffff_ffff
    } else {
        assert((1u32 << w) >= 1) by (bit_vector)
            requires
                w < 32,
        ;
        (1u32 << w) - 1
    }
}

/// Append the doc line of a bitfield accessor pair.
fn push_accessor_doc(out: &mut Vec<char>, field: &str, m: &Member, shift: u32, w: u32)
    requires
        m.ty@.bitfield == Some(w),
        shift + w <= u32::MAX,
    ensures
        final(out)@ == old(out)@ + accessor_doc(field@, m@, shift as nat),
{
    let ghost start = out@;
    push_str(out, "    /// Bits ");
    push_decimal(out, shift as u64);
    push_str(out, "..");
    push_decimal(out, (shift + w) as u64);
    push_str(out, " of `");
    push_str(out, field);
    push_str(out, "` (C bitfield `");
    push_str(out, m.name.as_str());
    push_str(out, ":");
    push_decimal(out, w as u64);
    push_str(out, "`).\n");
    assert(out@ =~= start + accessor_doc(field@, m@, shift as nat));
}

/// Append the getter of a bitfield member.
fn push_getter(out: &mut Vec<char>, field: &str, m: &Member, shift: u32, mask: u32)
    ensures
        final(out)@ == old(out)@ + getter_text(field@, m@, decimal(shift as nat), hex(mask as nat)),
{
    let ghost start = out@;
    push_str(out, "    #[inline]\n    pub fn ");
    push_str(out, m.name.as_str());
    push_str(out, "(&self) -> u32 {\n        (self.");
    push_str(out, field);
    push_str(out, " >> ");
    push_decimal(out, shift as u64);
    push_str(out, ") & 0x");
    push_hex(out, mask as u64);
    push_str(out, "\n    }\n");
    assert(out@ =~= start + getter_text(field@, m@, decimal(shift as nat), hex(mask as nat)));
}

/// Append the setter of a bitfield member.
fn push_setter(out: &mut Vec<char>, field: &str, m: &Member, shift: u32, mask: u32)
    ensures
        final(out)@ == old(out)@ + setter_text(field@, m@, decimal(shift as nat), hex(mask as nat)),
{
    let ghost start = out@;
    push_str(out, "    #[inline]\n    pub fn set_");
    push_str(out, m.name.as_str());
    push_str(out, "(&mut self, v: u32) {\n        self.");
    push_str(out, field);
    push_str(out, " = (self.");
    push_str(out, field);
    push_str(out, " & !(0x");
    push_hex(out, mask as u64);
    push_str(out, " << ");
    push_decimal(out, shift as u64);
    push_str(out, ")) | ((v & 0x");
    push_hex(out, mask as u64);
    push_str(out, ") << ");
    push_decimal(out, shift as u64);
    push_str(out, ");\n    }\n");
    assert(out@ =~= start + setter_text(field@, m@, decimal(shift as nat), hex(mask as nat)));
}

/// Append the accessors of member `m`, `shift` bits into `field`.
fn push_accessor(out: &mut Vec<char>, field: &str, m: &Member, shift: u32)
    requires
        m.ty@.bitfield is Some,
        width_of(m@) <= 32,
        shift + width_of(m@) <= u32::MAX,
    ensures
        final(out)@ == old(out)@ + accessor_text(field@, m@, shift as nat),
{
    let w: u32 = match m.ty.bitfield {
        Some(w) => w,
        None => 0,
    };
    let mask = bit_mask(w);
    let ghost start = out@;
    push_accessor_doc(out, field, m, shift, w);
    push_getter(out, field, m, shift, mask);
    push_setter(out, field, m, shift, mask);
    assert(out@ =~= start + accessor_text(field@, m@, shift as nat));
}

/// Check the members' bases in order and plan their fields: ordinary
/// members stand alone, bitfield members are packed into runs of at most
/// 32 bits.  Stops at the first refused base.
fn plan_fields(name: &str, members: &Vec<Member>, defined: &Vec<String>, platform: &mut Vec<String>) -> (r: Result<Vec<Slot>, Error>)
    requires
        bitfields_fit(member_views(members@)),
    ensures
        r is Ok <==> forall|j: int| 0 <= j < members@.len() ==> #[trigger] base_check(members@[j].ty@.base, texts(*defined)) is Ok,
        r matches Ok(sls) ==> slots_ok(sls@, member_views(members@)) && slots_view(sls@, member_views(members@)) == field_plan(member_views(members@))
            && texts(*final(platform)) == platforms_after(texts(*old(platform)), member_views(members@), members@.len() as int),
        r matches Err(e) ==> exists|k: int| #[trigger] first_refused(member_views(members@), texts(*defined), k)
            && e@ == Fault::InMember(name@, members@[k].name@, has_prefix(members@[k].ty@.base, "StdVideo"@), members@[k].ty@.base)
            && texts(*final(platform)) == platforms_after(texts(*old(platform)), member_views(members@), k),
{
    let ghost ms = member_views(members@);
    let ghost dv = texts(*defined);
    let ghost used0 = texts(*platform);
    let n = members.len();
    let mut slots: Vec<Slot> = Vec::new();
    let mut k: usize = 0;
    assert(ms.take(0) =~= Seq::<MemberView>::empty());
    assert(slots_view(slots@, ms) =~= Seq::<FieldPlan>::empty());
    while k < n
        invariant
            n == members@.len(),
            ms == member_views(members@),
            dv == texts(*defined),
            k <= n,
            bitfields_fit(ms),
            forall|j: int| 0 <= j < k ==> #[trigger] base_check(ms[j].ty.base, dv) is Ok,
            used0 == texts(*old(platform)),
            texts(*platform) == platforms_after(used0, ms, k as int),
            slots_ok(slots@, ms),
            slots_view(slots@, ms) == field_plan(ms.take(k as int)),
        decreases n - k,
    {
        let m = &members[k];
        assert(ms[k as int] == m@);
        match check_base(&m.ty, defined, platform) {
            Ok(()) => {},
            Err(e) => {
                proof {
                    assert(first_refused(ms, dv, k as int));
                    assert(texts(*platform) == platforms_after(used0, ms, k as int));
                }
                let video = match e {
                    Error::StdVideoBase { .. } => true,
                    _ => false,
                };
                assert(video == has_prefix(m.ty@.base, "StdVideo"@));
                let err = Error::InMember {
                    owner: name.to_owned(),
                    member: m.name.clone(),
                    video,
                    base: m.ty.base.clone(),
                };
                proof {
                    let kk = k as int;
                    assert(base_check(members@[kk].ty@.base, texts(*defined)) is Err);
                    assert(exists|k: int| #[trigger] first_refused(member_views(members@), texts(*defined), k)
                        && err@ == Fault::InMember(name@, members@[k].name@, has_prefix(members@[k].ty@.base, "StdVideo"@), members@[k].ty@.base)
                        && texts(*platform) == platforms_after(texts(*old(platform)), member_views(members@), k));
                }
                return Err(err);
            },
        }
        let ghost before = slots@;
        let ghost f = field_plan(ms.take(k as int));
        proof {
            assert(ms.take(k + 1).drop_last() =~= ms.take(k as int));
            assert(ms.take(k + 1).last() == ms[k as int]);
        }
        match m.ty.bitfield {
            None => {
                slots.push(Slot::Plain(k));
                proof {
                    assert(slots_view(slots@, ms) =~= slots_view(before, ms).push(FieldPlan::Plain(ms[k as int])));
                    assert forall|j: int| 0 <= j < slots@.len() implies #[trigger] slot_ok(slots@[j], ms) by {
                        if j < slots@.len() - 1 {
                            assert(slots@[j] == before[j]);
                        }
                    }
                }
            },
            Some(w) => {
                assert(width_of(ms[k as int]) <= 32);
                let nl = slots.len();
                let mut joined_run = false;
                if nl > 0 {
                    assert(slot_ok(before[nl - 1], ms));
                    assert(f.last() == slot_view(before[nl - 1], ms));
                    let last = slots.pop().unwrap();
                    match last {
                        Slot::Packed(mut idx, used) => {
                            if used + w <= 32 {
                                let ghost run = idx@.map_values(|i: usize| ms[i as int]);
                                let ghost old_idx = idx@;
                                idx.push(k);
                                proof {
                                    assert(idx@.map_values(|i: usize| ms[i as int]) =~= run.push(ms[k as int]));
                                    lemma_run_bits_push(run, ms[k as int]);
                                    assert(f.last() == FieldPlan::Packed(run));
                                    assert forall|t: int| 0 <= t < idx@.len() implies #[trigger] idx@[t] < ms.len() && ms[idx@[t] as int].ty.bitfield is Some by {
                                        if t < idx@.len() - 1 {
                                            assert(idx@[t] == old_idx[t]);
                                        }
                                    }
                                }
                                slots.push(Slot::Packed(idx, used + w));
                                joined_run = true;
                                proof {
                                    assert(slots_view(slots@, ms) =~= f.drop_last().push(FieldPlan::Packed(run.push(ms[k as int]))));
                                    assert forall|j: int| 0 <= j < slots@.len() implies #[trigger] slot_ok(slots@[j], ms) by {
                                        if j < nl - 1 {
                                            assert(slots@[j] == before[j]);
                                        }
                                    }
                                }
                            } else {
                                slots.push(Slot::Packed(idx, used));
                                proof {
                                    assert(slots@ =~= before);
                                }
                            }
                        },
                        Slot::Plain(i) => {
                            slots.push(Slot::Plain(i));
                            proof {
                                assert(slots@ =~= before);
                            }
                        },
                    }
                }
                if !joined_run {
                    let ghost mid = slots@;
                    let mut one: Vec<usize> = Vec::new();
                    one.push(k);
                    proof {
                        assert(one@.map_values(|i: usize| ms[i as int]) =~= seq![ms[k as int]]);
                        assert(seq![ms[k as int]] =~= Seq::<MemberView>::empty().push(ms[k as int]));
                        lemma_run_bits_push(Seq::<MemberView>::empty(), ms[k as int]);
                    }
                    slots.push(Slot::Packed(one, w));
                    proof {
                        assert(slots_view(slots@, ms) =~= f.push(FieldPlan::Packed(seq![ms[k as int]])));
                        assert forall|j: int| 0 <= j < slots@.len() implies #[trigger] slot_ok(slots@[j], ms) by {
                            if j < slots@.len() - 1 {
                                assert(slots@[j] == mid[j]);
                            }
                        }
                    }
                }
            },
        }
        k = k + 1;
    }
    assert(ms.take(n as int) =~= ms);
    assert forall|j: int| 0 <= j < members@.len() implies #[trigger] base_check(members@[j].ty@.base, texts(*defined)) is Ok by {
        assert(members@[j]@ == ms[j]);
    }
    Ok(slots)
}

/// The carrier field name of a run: its members' names joined by `_and_`.
fn run_field_name(members: &Vec<Member>, idx: &Vec<usize>) -> (r: String)
    requires
        forall|q: int| 0 <= q < idx@.len() ==> #[trigger] idx@[q] < members@.len(),
    ensures
        r@ == packed_name(idx@.map_values(|i: usize| member_views(members@)[i as int])),
{
    let ghost ms = member_views(members@);
    let ghost run = idx@.map_values(|i: usize| ms[i as int]);
    let mut names: Vec<String> = Vec::new();
    let mut t: usize = 0;
    while t < idx.len()
        invariant
            ms == member_views(members@),
            forall|q: int| 0 <= q < idx@.len() ==> #[trigger] idx@[q] < members@.len(),
            run == idx@.map_values(|i: usize| ms[i as int]),
            t <= idx@.len(),
            names@.len() == t,
            forall|q: int| 0 <= q < t ==> #[trigger] names@[q]@ == run[q].name,
        decreases idx@.len() - t,
    {
        let x = members[idx[t]].name.clone();
        proof {
            assert(run[t as int] == ms[idx@[t as int] as int]);
            assert(ms[idx@[t as int] as int] == members@[idx@[t as int] as int]@);
        }
        names.push(x);
        t = t + 1;
    }
    assert(names@.map_values(|x: String| x@) =~= run.map_values(|m: MemberView| m.name));
    let mut fname: Vec<char> = Vec::new();
    push_joined(&mut fname, &names, "_and_");
    assert(fname@ =~= packed_name(run));
    string_from_chars(fname.as_slice())
}

/// Append the accessors of a run whose carrier field is `field`.
fn push_run_accessors(acc: &mut Vec<char>, field: &str, members: &Vec<Member>, idx: &Vec<usize>)
    requires
        bitfields_fit(member_views(members@)),
        forall|q: int| 0 <= q < idx@.len() ==> #[trigger] idx@[q] < members@.len() && member_views(members@)[idx@[q] as int].ty.bitfield is Some,
        run_bits(idx@.map_values(|i: usize| member_views(members@)[i as int])) <= 32,
    ensures
        final(acc)@ == old(acc)@ + run_accessors(field@, idx@.map_values(|i: usize| member_views(members@)[i as int]), idx@.len() as int),
{
    let ghost ms = member_views(members@);
    let ghost run = idx@.map_values(|i: usize| ms[i as int]);
    let ghost acc0 = acc@;
    let mut shift: u32 = 0;
    let mut t: usize = 0;
    assert(run.take(0) =~= Seq::<MemberView>::empty());
    while t < idx.len()
        invariant
            ms == member_views(members@),
            forall|q: int| 0 <= q < idx@.len() ==> #[trigger] idx@[q] < ms.len() && ms[idx@[q] as int].ty.bitfield is Some,
            bitfields_fit(ms),
            run == idx@.map_values(|i: usize| ms[i as int]),
            run_bits(run) <= 32,
            t <= idx@.len(),
            shift == run_bits(run.take(t as int)),
            acc@ == acc0 + run_accessors(field@, run, t as int),
        decreases idx@.len() - t,
    {
        let m = &members[idx[t]];
        proof {
            assert(ms[idx@[t as int] as int] == m@);
            assert(run[t as int] == m@);
            assert(run.take(t + 1).drop_last() =~= run.take(t as int));
            assert(run.take(t + 1).last() == run[t as int]);
            lemma_run_bits_prefix(run, t + 1);
            assert(width_of(ms[idx@[t as int] as int]) <= 32);
        }
        push_accessor(acc, field, m, shift);
        let w: u32 = match m.ty.bitfield {
            Some(w) => w,
            None => 0,
        };
        shift = shift + w;
        t = t + 1;
    }
}

/// The field lines and the accessors of the planned fields.
fn emit_fields(members: &Vec<Member>, slots: &Vec<Slot>) -> (r: (Vec<char>, Vec<char>))
    requires
        bitfields_fit(member_views(members@)),
        slots_ok(slots@, member_views(members@)),
    ensures
        r.0@ == field_lines(slots_view(slots@, member_views(members@)), slots@.len() as int),
        r.1@ == accessors_of(slots_view(slots@, member_views(members@)), slots@.len() as int),
{
    let ghost ms = member_views(members@);
    let ghost plan = slots_view(slots@, ms);
    let mut body: Vec<char> = Vec::new();
    let mut acc: Vec<char> = Vec::new();
    let mut j: usize = 0;
    while j < slots.len()
        invariant
            ms == member_views(members@),
            bitfields_fit(ms),
            slots_ok(slots@, ms),
            plan == slots_view(slots@, ms),
            j <= slots@.len(),
            body@ == field_lines(plan, j as int),
            acc@ == accessors_of(plan, j as int),
        decreases slots@.len() - j,
    {
        assert(plan[j as int] == slot_view(slots@[j as int], ms));
        assert(slot_ok(slots@[j as int], ms));
        match &slots[j] {
            Slot::Plain(i) => {
                let m = &members[*i];
                assert(ms[*i as int] == m@);
                let ghost b0 = body@;
                push_str(&mut body, "    pub ");
                let id = sanitize_ident(m.name.as_str());
                push_str(&mut body, id.as_str());
                push_str(&mut body, ": ");
                let t = vk_type(&m.ty);
                push_str(&mut body, t.as_str());
                push_str(&mut body, ",\n");
                proof {
                    assert(body@ =~= b0 + field_line(plan[j as int]));
                    assert(accessors_of(plan, j + 1) =~= accessors_of(plan, j as int));
                }
            },
            Slot::Packed(idx, _) => {
                let field = run_field_name(members, idx);
                let ghost b0 = body@;
                push_str(&mut body, "    pub ");
                push_str(&mut body, field.as_str());
                push_str(&mut body, ": u32,\n");
                assert(body@ =~= b0 + field_line(plan[j as int]));
                push_run_accessors(&mut acc, field.as_str(), members, idx);
            },
        }
        j = j + 1;
    }
    (body, acc)
}

/// Emit the Rust item for the Vulkan struct (or union) `name` with members
/// `members`, appending it to `s`.  Every member's base must be an ABI
/// scalar, a type of this module (`defined`) or a known platform type,
/// which is then recorded in `platform`; the first member whose base is
/// refused stops the emission with an error naming it, before anything
/// is written.
pub fn emit_vk_struct(
    name: &str,
    is_union: bool,
    members: &Vec<Member>,
    s: &mut String,
    defined: &Vec<String>,
    platform: &mut Vec<String>,
) -> (r: Result<(), Error>)
    requires
        bitfields_fit(member_views(members@)),
    ensures
        r is Ok <==> forall|j: int| 0 <= j < members@.len() ==> #[trigger] base_check(members@[j].ty@.base, texts(*defined)) is Ok,
        r is Ok ==> final(s)@ == old(s)@ + vk_struct_text(name@, is_union, member_views(members@))
            && texts(*final(platform)) == platforms_after(texts(*old(platform)), member_views(members@), members@.len() as int),
        r matches Err(e) ==> final(s)@ == old(s)@ && exists|k: int| #[trigger] first_refused(member_views(members@), texts(*defined), k)
            && e@ == Fault::InMember(name@, members@[k].name@, has_prefix(members@[k].ty@.base, "StdVideo"@), members@[k].ty@.base)
            && texts(*final(platform)) == platforms_after(texts(*old(platform)), member_views(members@), k),
{
    let slots = match plan_fields(name, members, defined, platform) {
        Ok(v) => v,
        Err(e) => return Err(e),
    };
    let ghost ms = member_views(members@);
    let ghost plan = field_plan(ms);
    let (mut body, mut acc) = emit_fields(members, &slots);
    let mut out: Vec<char> = Vec::new();
    push_str(&mut out, "#[repr(C)]\n#[derive(Copy, Clone)]\npub ");
    if is_union {
        push_str(&mut out, "union");
    } else {
        push_str(&mut out, "struct");
    }
    push_str(&mut out, " ");
    push_str(&mut out, name);
    push_str(&mut out, " {\n");
    out.append(&mut body);
    push_str(&mut out, "}\n");
    let ghost acc_text = acc@;
    if acc.len() > 0 {
        push_str(&mut out, "impl ");
        push_str(&mut out, name);
        push_str(&mut out, " {\n");
        out.append(&mut acc);
        push_str(&mut out, "}\n");
    }
    assert(out@ =~= vk_struct_text(name@, is_union, ms));
    let text = string_from_chars(out.as_slice());
    append(s, text.as_str());
    Ok(())
}

} // verus!
