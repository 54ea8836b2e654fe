//! Function-pointer signatures and handle kinds read from the C text of
//! registry types: `typedef RET (CALLCONV *NAME)(PARAMS);` bodies, the
//! return and parameter fragments of Vulkan's `<proto>`/`<param>` form,
//! and the `VK_DEFINE_*HANDLE` macro invocations.

use vstd::prelude::*;

use crate::parse::ctype::{declarator, TypeRef, TypeView};
use crate::text::{
    chars_of, find, find_in, pieces, range_eq, skip_space, split, split_ranges, string_between,
    trim, trim_bounds, trim_start,
};

verus! {

/// A function signature: the return type and each parameter's name with
/// its type.
#[derive(Debug)]
pub struct RawFnSig {
    pub ret: TypeRef,
    pub params: Vec<(String, TypeRef)>,
}

/// The content of a [`RawFnSig`].
pub struct FnSigView {
    pub ret: TypeView,
    pub params: Seq<(Seq<char>, TypeView)>,
}

impl View for RawFnSig {
    type V = FnSigView;

    open spec fn view(&self) -> FnSigView {
        FnSigView { ret: self.ret@, params: self.params@.map_values(|p: (String, TypeRef)| (p.0@, p.1@)) }
    }
}

/// The parameters the fragments give: a `void` fragment stands for no
/// parameter; every other one must parse, and is named by its declarator
/// (empty when it names nothing).
pub open spec fn sig_params(ps: Seq<Seq<char>>) -> Option<Seq<(Seq<char>, TypeView)>>
    decreases ps.len(),
{
    if ps.len() == 0 {
        Some(Seq::empty())
    } else {
        match sig_params(ps.drop_last()) {
            None => None,
            Some(init) => {
                let p = trim(ps.last());
                if p == "void"@ {
                    Some(init)
                } else {
                    match declarator(p) {
                        Ok(ty) => Some(init.push(
                            (
                                match ty.decl_name {
                                    Some(n) => n,
                                    None => Seq::empty(),
                                },
                                ty,
                            ),
                        )),
                        Err(_) => None,
                    }
                }
            },
        }
    }
}

/// The signature a return fragment and parameter fragments give, if they
/// all parse.
pub open spec fn fn_sig_of(ret: Seq<char>, ps: Seq<Seq<char>>) -> Option<FnSigView> {
    match declarator(ret) {
        Err(_) => None,
        Ok(r) => match sig_params(ps) {
            None => None,
            Some(params) => Some(FnSigView { ret: r, params }),
        },
    }
}

/// The texts of a list of strings.
pub open spec fn texts_of(v: Seq<String>) -> Seq<Seq<char>> {
    v.map_values(|s: String| s@)
}

/// The structured signature of a return-type fragment and parameter
/// fragments (each like `"const void* pUserData"`, carrying its name).
pub fn fn_sig(ret: &str, params: &Vec<String>) -> (r: Option<RawFnSig>)
    ensures
        match fn_sig_of(ret@, texts_of(params@)) {
            Some(v) => r matches Some(s) && s@ == v,
            None => r is None,
        },
{
    let rt = match TypeRef::parse(ret) {
        Ok(t) => t,
        Err(_) => return None,
    };
    let ghost pv = texts_of(params@);
    let mut out: Vec<(String, TypeRef)> = Vec::new();
    let mut i: usize = 0;
    assert(pv.take(0) =~= Seq::<Seq<char>>::empty());
    while i < params.len()
        invariant
            i <= params@.len(),
            pv == texts_of(params@),
            sig_params(pv.take(i as int)) matches Some(ps) && out@.map_values(|p: (String, TypeRef)| (p.0@, p.1@)) == ps,
        decreases params@.len() - i,
    {
        proof {
            assert(pv.take(i + 1).drop_last() =~= pv.take(i as int));
            assert(pv.take(i + 1).last() == params@[i as int]@);
        }
        let c = chars_of(params[i].as_str());
        assert(c@.subrange(0, c@.len() as int) =~= params@[i as int]@);
        let (lo, hi) = trim_bounds(c.as_slice(), 0, c.len());
        let p = string_between(c.as_slice(), lo, hi);
        if !range_eq(c.as_slice(), lo, hi, "void") {
            match TypeRef::parse(p.as_str()) {
                Err(_) => {
                    proof {
                        lemma_sig_params_stays_none(pv, i as int + 1);
                    }
                    return None;
                },
                Ok(ty) => {
                    let name = match &ty.decl_name {
                        Some(n) => n.clone(),
                        None => String::new(),
                    };
                    let ghost before = out@.map_values(|p: (String, TypeRef)| (p.0@, p.1@));
                    out.push((name, ty));
                    proof {
                        assert(out@.map_values(|p: (String, TypeRef)| (p.0@, p.1@)) =~= before.push(
                            (out@.last().0@, out@.last().1@),
                        ));
                    }
                },
            }
        }
        i = i + 1;
    }
    assert(pv.take(params@.len() as int) =~= pv);
    Some(RawFnSig { ret: rt, params: out })
}

/// Once the parameters fail to parse, longer lists fail too.
proof fn lemma_sig_params_stays_none(ps: Seq<Seq<char>>, k: int)
    requires
        0 <= k <= ps.len(),
        sig_params(ps.take(k)) is None,
    ensures
        sig_params(ps) is None,
    decreases ps.len() - k,
{
    if k < ps.len() {
        assert(ps.take(k + 1).drop_last() =~= ps.take(k));
        lemma_sig_params_stays_none(ps, k + 1);
    } else {
        assert(ps.take(k) =~= ps);
    }
}

/// `i` is the last position of `c` in `s`.
pub open spec fn last_at(s: Seq<char>, c: char, i: int) -> bool {
    0 <= i < s.len() && s[i] == c && forall|j: int| i < j < s.len() ==> s[j] != c
}

/// Position of the last `c` in `s` (`str::rfind` with a `char` pattern).
pub open spec fn rfind(s: Seq<char>, c: char) -> Option<int> {
    if exists|i: int| last_at(s, c, i) {
        Some(choose|i: int| last_at(s, c, i))
    } else {
        None
    }
}

/// Position of the last `c` in `s[lo..hi]`, as an index into `s`.
pub(crate) fn rfind_in(s: &[char], c: char, lo: usize, hi: usize) -> (r: Option<usize>)
    requires
        lo <= hi <= s@.len(),
    ensures
        match r {
            Some(i) => lo <= i < hi && rfind(s@.subrange(lo as int, hi as int), c) == Some(i - lo),
            None => rfind(s@.subrange(lo as int, hi as int), c) is None,
        },
{
    let ghost t = s@.subrange(lo as int, hi as int);
    let mut i = hi;
    while i > lo
        invariant
            lo <= i <= hi <= s@.len(),
            t == s@.subrange(lo as int, hi as int),
            forall|j: int| i - lo <= j < t.len() ==> t[j] != c,
        decreases i - lo,
    {
        if s[i - 1] == c {
            proof {
                let p = i - 1 - lo;
                assert(t[p] == c);
                assert(last_at(t, c, p));
                let q = choose|q: int| last_at(t, c, q);
                assert(last_at(t, c, q));
                if q < p {
                    assert(t[p] != c);
                } else if q > p {
                    assert(t[q] != c);
                }
            }
            return Some(i - 1);
        }
        i = i - 1;
    }
    proof {
        if exists|q: int| last_at(t, c, q) {
            let q = choose|q: int| last_at(t, c, q);
            assert(t[q] != c);
        }
    }
    None
}

/// The pieces of a parameter list: none for an empty list, else the
/// comma-separated pieces, each trimmed.
pub open spec fn param_pieces(text: Seq<char>) -> Seq<Seq<char>> {
    if text.len() == 0 {
        Seq::empty()
    } else {
        split(text, ',').map_values(|p: Seq<char>| trim(p))
    }
}

/// The signature of a text-form function-pointer typedef,
/// `typedef RET (CALLCONV *NAME)(PARAMS);`: the return type before the
/// first `(`, a `*` inside the first parentheses, and the parameters in
/// the outermost parentheses after them.
pub open spec fn funcpointer_sig(raw: Seq<char>) -> Option<FnSigView> {
    let t = trim(raw);
    if !(t.len() >= 7 && t.take(7) == "typedef"@) {
        None
    } else {
        let s = t.skip(7);
        match find(s, '(') {
            None => None,
            Some(open) => {
                let rest = s.skip(open + 1);
                match find(rest, ')') {
                    None => None,
                    Some(close) => if find(rest.take(close), '*') is None {
                        None
                    } else {
                        let after = rest.skip(close + 1);
                        match (find(after, '('), rfind(after, ')')) {
                            (Some(popen), Some(pclose)) => if pclose <= popen {
                                None
                            } else {
                                fn_sig_of(
                                    trim(s.take(open)),
                                    param_pieces(trim(after.subrange(popen + 1, pclose))),
                                )
                            },
                            _ => None,
                        }
                    },
                }
            },
        }
    }
}

/// Read a text-form function-pointer typedef into its signature; `None`
/// when the text has another shape or a fragment does not parse.
#[verifier::spinoff_prover]
#[verifier::rlimit(40)]
pub fn parse_funcpointer_text(raw: &str) -> (r: Option<RawFnSig>)
    ensures
        match funcpointer_sig(raw@) {
            Some(v) => r matches Some(s) && s@ == v,
            None => r is None,
        },
{
    let c = chars_of(raw);
    assert(c@.subrange(0, c@.len() as int) =~= raw@);
    let (a, b) = trim_bounds(c.as_slice(), 0, c.len());
    let ghost t = c@.subrange(a as int, b as int);
    proof {
        reveal_strlit("typedef");
        if t.len() >= 7 {
            assert(t.take(7) =~= c@.subrange(a as int, a + 7));
        }
    }
    if b - a < 7 || !range_eq(c.as_slice(), a, a + 7, "typedef") {
        return None;
    }
    let s0 = a + 7;
    let ghost s = t.skip(7);
    assert(s =~= c@.subrange(s0 as int, b as int));
    let open = match find_in(c.as_slice(), '(', s0, b) {
        None => return None,
        Some(o) => o,
    };
    let ghost rest = s.skip(open - s0 + 1);
    assert(rest =~= c@.subrange(open + 1, b as int));
    let close = match find_in(c.as_slice(), ')', open + 1, b) {
        None => return None,
        Some(x) => x,
    };
    assert(rest.take(close - (open + 1)) =~= c@.subrange(open + 1, close as int));
    if find_in(c.as_slice(), '*', open + 1, close).is_none() {
        return None;
    }
    let ghost after = rest.skip(close - (open + 1) + 1);
    assert(after =~= c@.subrange(close + 1, b as int));
    let popen = match find_in(c.as_slice(), '(', close + 1, b) {
        None => return None,
        Some(x) => x,
    };
    let pclose = match rfind_in(c.as_slice(), ')', close + 1, b) {
        None => return None,
        Some(x) => x,
    };
    if pclose <= popen {
        return None;
    }
    assert(s.take(open - s0) =~= c@.subrange(s0 as int, open as int));
    let (r0, r1) = trim_bounds(c.as_slice(), s0, open);
    let ret = string_between(c.as_slice(), r0, r1);
    assert(after.subrange(popen - (close + 1) + 1, pclose - (close + 1)) =~= c@.subrange(popen + 1, pclose as int));
    let (p0, p1) = trim_bounds(c.as_slice(), popen + 1, pclose);
    let ghost text = c@.subrange(p0 as int, p1 as int);
    let mut params: Vec<String> = Vec::new();
    if p0 < p1 {
        let ranges = split_ranges(c.as_slice(), ',', p0, p1);
        let mut k: usize = 0;
        while k < ranges.len()
            invariant
                k <= ranges@.len(),
                forall|q: int| 0 <= q < ranges@.len() ==> p0 <= #[trigger] ranges@[q].0 <= ranges@[q].1 <= p1,
                p1 <= c@.len(),
                texts_of(params@) == pieces(c@, ranges@).take(k as int).map_values(|p: Seq<char>| trim(p)),
            decreases ranges@.len() - k,
        {
            let (lo, hi) = ranges[k];
            assert(lo == ranges@[k as int].0 && hi == ranges@[k as int].1);
            let (q0, q1) = trim_bounds(c.as_slice(), lo, hi);
            let piece = string_between(c.as_slice(), q0, q1);
            let ghost before = texts_of(params@);
            params.push(piece);
            proof {
                assert(pieces(c@, ranges@)[k as int] == c@.subrange(lo as int, hi as int));
                assert(texts_of(params@) =~= before.push(trim(c@.subrange(lo as int, hi as int))));
                assert(pieces(c@, ranges@).take(k + 1) =~= pieces(c@, ranges@).take(k as int).push(pieces(c@, ranges@)[k as int]));
                assert(texts_of(params@) =~= pieces(c@, ranges@).take(k + 1).map_values(|p: Seq<char>| trim(p)));
            }
            k = k + 1;
        }
        assert(pieces(c@, ranges@).take(ranges@.len() as int) =~= pieces(c@, ranges@));
        assert(texts_of(params@) == param_pieces(text));
    } else {
        assert(texts_of(params@) =~= param_pieces(text));
    }
    fn_sig(ret.as_str(), &params)
}

/// The kind of handle a `category="handle"` body declares:
/// `Some(false)` for `VK_DEFINE_NON_DISPATCHABLE_HANDLE`, `Some(true)` for
/// `VK_DEFINE_HANDLE`, `None` otherwise (an alias handle, `#define X Y`).
pub open spec fn handle_kind(raw: Seq<char>) -> Option<bool> {
    let t = trim_start(raw);
    if t.len() >= 33 && t.take(33) == "VK_DEFINE_NON_DISPATCHABLE_HANDLE"@ {
        Some(false)
    } else if t.len() >= 16 && t.take(16) == "VK_DEFINE_HANDLE"@ {
        Some(true)
    } else {
        None
    }
}

/// Whether a handle body declares a dispatchable handle (`Some(true)`), a
/// non-dispatchable one (`Some(false)`), or neither (`None`).
pub fn handle_payload(raw: &str) -> (r: Option<bool>)
    ensures
        r == handle_kind(raw@),
{
    proof {
        reveal_strlit("VK_DEFINE_NON_DISPATCHABLE_HANDLE");
        reveal_strlit("VK_DEFINE_HANDLE");
    }
    let c = chars_of(raw);
    assert(c@.subrange(0, c@.len() as int) =~= raw@);
    let a = skip_space(c.as_slice(), 0, c.len());
    let ghost t = c@.subrange(a as int, c@.len() as int);
    assert(t == trim_start(raw@));
    let n = c.len();
    if n - a >= 33 && range_eq(c.as_slice(), a, a + 33, "VK_DEFINE_NON_DISPATCHABLE_HANDLE") {
        assert(t.take(33) =~= c@.subrange(a as int, a + 33));
        return Some(false);
    }
    proof {
        if t.len() >= 33 {
            assert(t.take(33) =~= c@.subrange(a as int, a + 33));
        }
    }
    if n - a >= 16 && range_eq(c.as_slice(), a, a + 16, "VK_DEFINE_HANDLE") {
        assert(t.take(16) =~= c@.subrange(a as int, a + 16));
        return Some(true);
    }
    proof {
        if t.len() >= 16 {
            assert(t.take(16) =~= c@.subrange(a as int, a + 16));
        }
    }
    None
}

} // verus!
