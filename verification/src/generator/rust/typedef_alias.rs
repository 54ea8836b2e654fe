//! Type aliases for text-form typedefs: one `pub type` when every arm of a
//! conditional typedef maps to the same Rust type (the macOS `ptrdiff_t`
//! guard: `long` and `ptrdiff_t` are both `isize`), a `cfg`/`cfg(not)` pair
//! when a guarded arm and its `#else` differ (`GLhandleARB`).

use vstd::prelude::*;

use crate::error::{Error, Fault};
use crate::generator::rust::abi::{
    abi_scalar_text, cond_to_cfg, is_apple_condition, ptr_wrapped, rust_target_type, set_insert,
    table_decl, target_base, PlatformSweep, PlatformTable,
};
use crate::generator::rust::vk_types::append;
use crate::ir::texts;
use crate::parse::ctype::TypeView;
use crate::parse::typedefs::{arm_views, ArmView, TypedefArm};
use crate::text::{push_str, string_from_chars};

verus! {

/// The Rust type an arm maps to, if its base is known.
pub open spec fn arm_target(ty: TypeView, defined: Seq<Seq<char>>, table: PlatformTable) -> Option<Seq<char>> {
    match target_base(ty, defined, table) {
        Some(b) => Some(ptr_wrapped(b, ty, ty.pointers.len() as int)),
        None => None,
    }
}

/// The Rust types of the first `k` arms, unless one of them has an
/// unknown base.
pub open spec fn arm_targets(arms: Seq<ArmView>, defined: Seq<Seq<char>>, table: PlatformTable, k: int) -> Option<Seq<Seq<char>>>
    decreases k,
{
    if k <= 0 {
        Some(Seq::empty())
    } else {
        match (arm_targets(arms, defined, table, k - 1), arm_target(arms[k - 1].ty, defined, table)) {
            (Some(ts), Some(t)) => Some(ts.push(t)),
            _ => None,
        }
    }
}

/// The incomplete structs recorded after mapping the first `k` arms.
pub open spec fn opaque_after(o: Seq<Seq<char>>, arms: Seq<ArmView>, defined: Seq<Seq<char>>, k: int) -> Seq<Seq<char>>
    decreases k,
{
    if k <= 0 {
        o
    } else {
        let prev = opaque_after(o, arms, defined, k - 1);
        let ty = arms[k - 1].ty;
        if ty.struct_kw && !defined.contains(ty.base) {
            set_insert(prev, ty.base)
        } else {
            prev
        }
    }
}

/// The platform types recorded after mapping the first `k` arms.
pub open spec fn used_after(u: Seq<Seq<char>>, arms: Seq<ArmView>, defined: Seq<Seq<char>>, table: PlatformTable, k: int) -> Seq<Seq<char>>
    decreases k,
{
    if k <= 0 {
        u
    } else {
        let prev = used_after(u, arms, defined, table, k - 1);
        let ty = arms[k - 1].ty;
        if !ty.struct_kw && abi_scalar_text(ty.base) is None && !defined.contains(ty.base) && table_decl(table, ty.base) is Some {
            set_insert(prev, ty.base)
        } else {
            prev
        }
    }
}

/// Neighbouring targets are equal.
pub open spec fn all_same(ts: Seq<Seq<char>>) -> bool {
    forall|i: int| 0 <= i < ts.len() - 1 ==> #[trigger] ts[i] == ts[i + 1]
}

/// The alias text: one `pub type` when the targets agree; else the
/// guarded arm's type under the condition's `cfg` and the `#else` arm's
/// under its negation.
pub open spec fn alias_text(name: Seq<char>, ts: Seq<Seq<char>>, cfg: Seq<char>) -> Seq<char> {
    if all_same(ts) {
        "pub type "@ + name + " = "@ + ts[0] + ";\n"@
    } else {
        "#[cfg("@ + cfg + ")]\npub type "@ + name + " = "@ + ts[0] + ";\n#[cfg(not("@ + cfg + "))]\npub type "@
            + name + " = "@ + ts[1] + ";\n"@
    }
}

/// Emit the alias of the typedef `name` from its arms, appending it to
/// `s`; each arm's target is mapped as [`rust_target_type`] maps it,
/// recording incomplete structs in `opaque` and platform types in
/// `platform`.  The first arm with an unknown base stops the emission;
/// arms that differ must be exactly a guarded arm and its `#else`, with a
/// condition that has a `cfg` mapping.
pub fn emit_typedef_arms(
    s: &mut String,
    name: &str,
    arms: &Vec<TypedefArm>,
    defined: &Vec<String>,
    opaque: &mut Vec<String>,
    platform: &mut PlatformSweep,
) -> (r: Result<(), Error>)
    requires
        arms@.len() > 0,
    ensures
        final(platform).table == old(platform).table,
        ({
            let av = arm_views(arms@);
            let d = texts(*defined);
            let tb = old(platform).table;
            let n = arms@.len() as int;
            match arm_targets(av, d, tb, n) {
                None => exists|k: int| #![trigger arm_targets(av, d, tb, k)] 0 <= k < n && arm_targets(av, d, tb, k) is Some
                    && arm_target(av[k].ty, d, tb) is None && (r matches Err(e) && e@ == Fault::TypedefTarget(av[k].ty.base))
                    && final(s)@ == old(s)@
                    && texts(*final(opaque)) == opaque_after(texts(*old(opaque)), av, d, k)
                    && texts(final(platform).used) == used_after(texts(old(platform).used), av, d, tb, k),
                Some(ts) => texts(*final(opaque)) == opaque_after(texts(*old(opaque)), av, d, n)
                    && texts(final(platform).used) == used_after(texts(old(platform).used), av, d, tb, n)
                    && if all_same(ts) {
                    r is Ok && final(s)@ == old(s)@ + alias_text(name@, ts, Seq::empty())
                } else if n != 2 {
                    r matches Err(e) && e@ == Fault::TypedefArity(name@, n as usize) && final(s)@ == old(s)@
                } else {
                    match av[0].condition {
                        None => r matches Err(e) && e@ == Fault::TypedefNoCondition(name@) && final(s)@ == old(s)@,
                        Some(c) => if is_apple_condition(c) {
                            r is Ok && final(s)@ == old(s)@ + alias_text(name@, ts, "target_vendor = \"apple\""@)
                        } else {
                            r matches Err(e) && e@ == Fault::NoCfgMapping(c) && final(s)@ == old(s)@
                        },
                    }
                }
            }
        }),
{
    let ghost av = arm_views(arms@);
    let ghost d = texts(*defined);
    let ghost tb = platform.table;
    let ghost o0 = texts(*opaque);
    let ghost u0 = texts(platform.used);
    let n = arms.len();
    let mut targets: Vec<String> = Vec::new();
    let mut k: usize = 0;
    while k < n
        invariant
            n == arms@.len(),
            k <= n,
            av == arm_views(arms@),
            d == texts(*defined),
            platform.table == tb,
            tb == old(platform).table,
            o0 == texts(*old(opaque)),
            u0 == texts(old(platform).used),
            s@ == old(s)@,
            targets@.len() == k,
            arm_targets(av, d, tb, k as int) matches Some(ts) && texts(targets) == ts,
            texts(*opaque) == opaque_after(o0, av, d, k as int),
            texts(platform.used) == used_after(u0, av, d, tb, k as int),
        decreases n - k,
    {
        assert(av[k as int] == arms@[k as int]@);
        match rust_target_type(&arms[k].ty, defined, opaque, platform) {
            Err(e) => {
                proof {
                    lemma_targets_stay_none(av, d, tb, k as int + 1, n as int);
                    assert(arm_targets(av, d, tb, k as int) is Some && arm_target(av[k as int].ty, d, tb) is None);
                }
                return Err(e);
            },
            Ok(t) => {
                let ghost before = texts(targets);
                targets.push(t);
                proof {
                    assert(texts(targets) =~= before.push(targets@.last()@));
                }
            },
        }
        k = k + 1;
    }
    let ghost ts = texts(targets);
    assert(ts.len() == n);
    let mut same = true;
    let mut i: usize = 0;
    while i < n - 1
        invariant
            ts == texts(targets),
            ts.len() == targets@.len(),
            n == targets@.len(),
            n > 0,
            i <= n - 1,
            same <==> forall|q: int| 0 <= q < i ==> #[trigger] ts[q] == ts[q + 1],
        decreases n - 1 - i,
    {
        assert(ts[i as int] == targets@[i as int]@);
        assert(ts[i + 1] == targets@[i + 1]@);
        if !crate::text::str_eq(targets[i].as_str(), targets[i + 1].as_str()) {
            same = false;
        }
        i = i + 1;
    }
    assert(same == all_same(ts));
    if same {
        let mut out: Vec<char> = Vec::new();
        push_str(&mut out, "pub type ");
        push_str(&mut out, name);
        push_str(&mut out, " = ");
        push_str(&mut out, targets[0].as_str());
        push_str(&mut out, ";\n");
        assert(out@ =~= alias_text(name@, ts, Seq::empty()));
        append(s, string_from_chars(out.as_slice()).as_str());
        return Ok(());
    }
    if n != 2 {
        return Err(Error::TypedefArity { name: name.to_owned(), arms: n });
    }
    let cond = match &arms[0].condition {
        Some(c) => c,
        None => return Err(Error::TypedefNoCondition { name: name.to_owned() }),
    };
    assert(av[0] == arms@[0]@);
    let cfg = match cond_to_cfg(cond.as_str()) {
        Ok(c) => c,
        Err(e) => return Err(e),
    };
    let mut out: Vec<char> = Vec::new();
    push_str(&mut out, "#[cfg(");
    push_str(&mut out, cfg);
    push_str(&mut out, ")]\npub type ");
    push_str(&mut out, name);
    push_str(&mut out, " = ");
    push_str(&mut out, targets[0].as_str());
    push_str(&mut out, ";\n#[cfg(not(");
    push_str(&mut out, cfg);
    push_str(&mut out, "))]\npub type ");
    push_str(&mut out, name);
    push_str(&mut out, " = ");
    push_str(&mut out, targets[1].as_str());
    push_str(&mut out, ";\n");
    assert(out@ =~= alias_text(name@, ts, cfg@));
    append(s, string_from_chars(out.as_slice()).as_str());
    Ok(())
}

/// Once an arm's target is unknown, the targets of longer prefixes are too.
proof fn lemma_targets_stay_none(av: Seq<ArmView>, d: Seq<Seq<char>>, tb: PlatformTable, k: int, n: int)
    requires
        0 <= k <= n,
        arm_targets(av, d, tb, k) is None,
    ensures
        arm_targets(av, d, tb, n) is None,
    decreases n - k,
{
    if k < n {
        lemma_targets_stay_none(av, d, tb, k + 1, n);
    }
}

} // verus!
