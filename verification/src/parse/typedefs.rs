//! Text-form typedef bodies: a `<type>` whose C text is one or more
//! `typedef ...;` lines, possibly chosen by `#ifdef` / `#if` / `#else` /
//! `#endif` (GL's `GLhandleARB` is `void *` on Apple platforms and
//! `unsigned int` elsewhere), read into one arm per typedef.

use vstd::prelude::*;

use crate::parse::ctype::{declarator, TypeRef, TypeView};
use crate::text::{
    chars_of, cut_cr, find, find_in, lines, push_str, range_eq, string_between, string_from_chars,
    trim, trim_bounds,
};

verus! {

/// One typedef of a text-form body and the preprocessor condition it is
/// under (`None`: unconditional, or the `#else` arm).
#[derive(Debug)]
pub struct TypedefArm {
    pub condition: Option<String>,
    pub ty: TypeRef,
}

/// The content of a [`TypedefArm`].
pub struct ArmView {
    pub condition: Option<Seq<char>>,
    pub ty: TypeView,
}

impl View for TypedefArm {
    type V = ArmView;

    open spec fn view(&self) -> ArmView {
        ArmView {
            condition: match &self.condition {
                Some(c) => Some(c@),
                None => None,
            },
            ty: self.ty@,
        }
    }
}

/// `s` with every backslash-newline line continuation replaced by a space,
/// left to right.
pub open spec fn join_continuations(s: Seq<char>) -> Seq<char>
    decreases s.len(),
{
    if s.len() == 0 {
        Seq::empty()
    } else if s.len() >= 2 && s[0] == '\\' && s[1] == '\n' {
        seq![' '] + join_continuations(s.subrange(2, s.len() as int))
    } else {
        seq![s[0]] + join_continuations(s.drop_first())
    }
}

/// Where the reading of a body stands: the arms so far, the condition in
/// force, and whether an `#else` is open.
pub struct ArmsState {
    pub arms: Seq<ArmView>,
    pub cond: Option<Seq<char>>,
    pub in_else: bool,
}

/// `l` starts with `p`.
pub open spec fn starts(l: Seq<char>, p: Seq<char>) -> bool {
    l.len() >= p.len() && l.take(p.len() as int) == p
}

/// The arm a `typedef` line's body gives: the declaration before its `;`,
/// when it parses and names what it declares.
pub open spec fn typedef_arm(body: Seq<char>, st: ArmsState) -> Option<ArmView> {
    let b = trim(body);
    if b.len() > 0 && b.last() == ';' {
        match declarator(trim(b.drop_last())) {
            Ok(ty) => if ty.decl_name is Some {
                Some(ArmView { condition: if st.in_else { None } else { st.cond }, ty })
            } else {
                None
            },
            Err(_) => None,
        }
    } else {
        None
    }
}

/// Read one line into the state; `None` when the line is outside the
/// text-form grammar, which makes the whole body opaque.
pub open spec fn read_line(st: ArmsState, line: Seq<char>) -> Option<ArmsState> {
    let l = trim(line);
    if l.len() == 0 {
        Some(st)
    } else if starts(l, "#ifdef"@) {
        Some(ArmsState { cond: Some("defined("@ + trim(l.skip(6)) + ")"@), in_else: false, ..st })
    } else if starts(l, "#if "@) {
        Some(ArmsState { cond: Some(trim(l.skip(4))), in_else: false, ..st })
    } else if l == "#else"@ {
        Some(ArmsState { in_else: true, ..st })
    } else if l == "#endif"@ {
        Some(ArmsState { cond: None, in_else: false, ..st })
    } else if starts(l, "typedef"@) {
        match typedef_arm(l.skip(7), st) {
            Some(a) => Some(ArmsState { arms: st.arms.push(a), ..st }),
            None => None,
        }
    } else {
        None
    }
}

/// Read the lines in order from `st`.
pub open spec fn read_lines(ls: Seq<Seq<char>>, st: ArmsState) -> Option<ArmsState>
    decreases ls.len(),
{
    if ls.len() == 0 {
        Some(st)
    } else {
        match read_line(st, ls[0]) {
            Some(st2) => read_lines(ls.drop_first(), st2),
            None => None,
        }
    }
}

/// The arms of a text-form typedef body, or `None` when the body is
/// opaque: some line is outside the grammar, or there is no typedef.
pub open spec fn typedef_arms(raw: Seq<char>) -> Option<Seq<ArmView>> {
    match read_lines(
        lines(join_continuations(raw)),
        ArmsState { arms: Seq::empty(), cond: None, in_else: false },
    ) {
        Some(st) => if st.arms.len() > 0 {
            Some(st.arms)
        } else {
            None
        },
        None => None,
    }
}

/// The arms' contents.
pub open spec fn arm_views(v: Seq<TypedefArm>) -> Seq<ArmView> {
    v.map_values(|a: TypedefArm| a@)
}

/// Replace the line continuations of `s`.
fn join_lines(s: &str) -> (r: Vec<char>)
    ensures
        r@ == join_continuations(s@),
{
    let c = chars_of(s);
    let n = c.len();
    let mut out: Vec<char> = Vec::new();
    let mut i: usize = 0;
    assert(c@.subrange(0, n as int) =~= s@);
    assert(out@ + join_continuations(c@.subrange(0, n as int)) =~= join_continuations(s@));
    while i < n
        invariant
            n == c@.len(),
            c@ == s@,
            i <= n,
            out@ + join_continuations(c@.subrange(i as int, n as int)) == join_continuations(s@),
        decreases n - i,
    {
        let ghost rest = c@.subrange(i as int, n as int);
        let ghost before = out@;
        if i + 1 < n && c[i] == '\\' && c[i + 1] == '\n' {
            assert(rest.subrange(2, rest.len() as int) =~= c@.subrange(i + 2, n as int));
            out.push(' ');
            assert(out@ =~= before + seq![' ']);
            i = i + 2;
        } else {
            assert(rest.drop_first() =~= c@.subrange(i + 1, n as int));
            out.push(c[i]);
            assert(out@ =~= before + seq![c@[i as int]]);
            i = i + 1;
        }
    }
    assert(c@.subrange(n as int, n as int) =~= Seq::<char>::empty());
    assert(out@ + Seq::<char>::empty() =~= out@);
    out
}

/// Read the line `s[lo..hi]` into the state.
fn read_one(s: &[char], lo: usize, hi: usize, arms: &mut Vec<TypedefArm>, cond: &mut Option<String>, in_else: &mut bool) -> (ok: bool)
    requires
        lo <= hi <= s@.len(),
    ensures
        ({
            let st = ArmsState { arms: arm_views(old(arms)@), cond: opt_view(*old(cond)), in_else: *old(in_else) };
            match read_line(st, s@.subrange(lo as int, hi as int)) {
                Some(st2) => ok && arm_views(final(arms)@) == st2.arms && opt_view(*final(cond)) == st2.cond
                    && *final(in_else) == st2.in_else,
                None => !ok,
            }
        }),
{
    let ghost st = ArmsState { arms: arm_views(arms@), cond: opt_view(*cond), in_else: *in_else };
    let ghost line = s@.subrange(lo as int, hi as int);
    proof {
        reveal_strlit("#ifdef");
        reveal_strlit("#if ");
        reveal_strlit("typedef");
    }
    let (a, b) = trim_bounds(s, lo, hi);
    let ghost l = s@.subrange(a as int, b as int);
    assert(l == trim(line));
    if a == b {
        return true;
    }
    if b - a >= 6 && range_eq(s, a, a + 6, "#ifdef") {
        assert(l.take(6) =~= s@.subrange(a as int, a + 6));
        let (c0, c1) = trim_bounds(s, a + 6, b);
        assert(l.skip(6) =~= s@.subrange(a + 6, b as int));
        let mut t: Vec<char> = Vec::new();
        push_str(&mut t, "defined(");
        let inner = string_between(s, c0, c1);
        push_str(&mut t, inner.as_str());
        push_str(&mut t, ")");
        assert(t@ =~= "defined("@ + trim(l.skip(6)) + ")"@);
        *cond = Some(string_from_chars(t.as_slice()));
        *in_else = false;
        return true;
    }
    proof {
        if l.len() >= 6 {
            assert(l.take(6) =~= s@.subrange(a as int, a + 6));
        }
    }
    if b - a >= 4 && range_eq(s, a, a + 4, "#if ") {
        assert(l.take(4) =~= s@.subrange(a as int, a + 4));
        let (c0, c1) = trim_bounds(s, a + 4, b);
        assert(l.skip(4) =~= s@.subrange(a + 4, b as int));
        *cond = Some(string_between(s, c0, c1));
        *in_else = false;
        return true;
    }
    proof {
        if l.len() >= 4 {
            assert(l.take(4) =~= s@.subrange(a as int, a + 4));
        }
    }
    if range_eq(s, a, b, "#else") {
        *in_else = true;
        return true;
    }
    if range_eq(s, a, b, "#endif") {
        *cond = None;
        *in_else = false;
        return true;
    }
    if b - a >= 7 && range_eq(s, a, a + 7, "typedef") {
        assert(l.take(7) =~= s@.subrange(a as int, a + 7));
        assert(l.skip(7) =~= s@.subrange(a + 7, b as int));
        let (d0, d1) = trim_bounds(s, a + 7, b);
        let ghost body = s@.subrange(d0 as int, d1 as int);
        if d0 == d1 || s[d1 - 1] != ';' {
            return false;
        }
        assert(body.last() == s@[d1 - 1]);
        assert(body.drop_last() =~= s@.subrange(d0 as int, d1 - 1));
        let (e0, e1) = trim_bounds(s, d0, d1 - 1);
        let decl = string_between(s, e0, e1);
        match TypeRef::parse(decl.as_str()) {
            Err(_) => return false,
            Ok(ty) => {
                if ty.decl_name.is_none() {
                    return false;
                }
                let condition = if *in_else {
                    None
                } else {
                    match cond {
                        Some(c) => Some(c.clone()),
                        None => None,
                    }
                };
                let arm = TypedefArm { condition, ty };
                let ghost before = arm_views(arms@);
                arms.push(arm);
                proof {
                    assert(arm_views(arms@) =~= before.push(arm@));
                }
                return true;
            },
        }
    }
    proof {
        if l.len() >= 7 {
            assert(l.take(7) =~= s@.subrange(a as int, a + 7));
        }
    }
    false
}

/// An optional text as its characters.
pub open spec fn opt_view(o: Option<String>) -> Option<Seq<char>> {
    match o {
        Some(s) => Some(s@),
        None => None,
    }
}

/// Read a text-form typedef body into its arms, one per `typedef` line,
/// each under the `#ifdef` / `#if` condition in force (none after
/// `#else`); `None` when the body is opaque: a line outside that grammar,
/// a typedef that does not parse or names nothing, or no typedef at all.
pub fn typedef_text_payload(raw: &str) -> (r: Option<Vec<TypedefArm>>)
    ensures
        match typedef_arms(raw@) {
            Some(arms) => r matches Some(v) && arm_views(v@) == arms,
            None => r is None,
        },
{
    let s = join_lines(raw);
    let n = s.len();
    let mut arms: Vec<TypedefArm> = Vec::new();
    let mut cond: Option<String> = None;
    let mut in_else = false;
    let ghost start = ArmsState { arms: Seq::empty(), cond: None, in_else: false };
    let mut pos: usize = 0;
    assert(s@.subrange(0, n as int) =~= s@);
    assert(arm_views(arms@) =~= Seq::<ArmView>::empty());
    while pos < n
        invariant
            n == s@.len(),
            s@ == join_continuations(raw@),
            start == (ArmsState { arms: Seq::empty(), cond: None, in_else: false }),
            pos <= n,
            read_lines(lines(s@), start) == read_lines(
                lines(s@.subrange(pos as int, n as int)),
                ArmsState { arms: arm_views(arms@), cond: opt_view(cond), in_else },
            ),
        decreases n - pos,
    {
        let ghost sub = s@.subrange(pos as int, n as int);
        let ghost st = ArmsState { arms: arm_views(arms@), cond: opt_view(cond), in_else };
        let (end, next) = match find_in(s.as_slice(), '\n', pos, n) {
            Some(k) => {
                assert(sub.subrange(0, k - pos) =~= s@.subrange(pos as int, k as int));
                assert(sub.subrange(k - pos + 1, sub.len() as int) =~= s@.subrange(k + 1, n as int));
                (k, k + 1)
            },
            None => (n, n),
        };
        let mut stop = end;
        if next > end && stop > pos && s[stop - 1] == '\r' {
            stop = stop - 1;
        }
        proof {
            if next > end {
                let l = cut_cr(s@.subrange(pos as int, end as int));
                assert(l =~= s@.subrange(pos as int, stop as int));
                assert(lines(sub) == seq![l] + lines(s@.subrange(next as int, n as int)));
            } else {
                assert(s@.subrange(pos as int, stop as int) =~= sub);
                assert(lines(sub) == seq![sub]);
                assert(s@.subrange(n as int, n as int) =~= Seq::<char>::empty());
                assert(lines(s@.subrange(n as int, n as int)) =~= Seq::<Seq<char>>::empty());
                assert(seq![sub] =~= seq![sub] + Seq::<Seq<char>>::empty());
            }
            let ls = lines(sub);
            assert(ls.drop_first() =~= lines(s@.subrange(next as int, n as int)));
        }
        proof {
            assert(lines(sub)[0] == s@.subrange(pos as int, stop as int));
        }
        if !read_one(s.as_slice(), pos, stop, &mut arms, &mut cond, &mut in_else) {
            assert(read_lines(lines(sub), st) is None);
            return None;
        }
        pos = next;
    }
    assert(s@.subrange(n as int, n as int) =~= Seq::<char>::empty());
    assert(lines(s@.subrange(n as int, n as int)) =~= Seq::<Seq<char>>::empty());
    if arms.len() == 0 {
        None
    } else {
        Some(arms)
    }
}

} // verus!
