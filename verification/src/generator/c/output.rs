//! What the C backend writes besides the rendered templates: where the
//! header and source land, the header guard, which auxiliary headers are
//! copied into the include tree (and the quoted `#include`s that pull in
//! more of them), and the offset table of the unchecked Vulkan loader.

use vstd::prelude::*;

use crate::cli::texts;
use crate::generator::c::model::{blob_offset, FnNameLayout};
use crate::ir::names_contain;
use crate::text::{
    chars_of, str_eq, find, find_in, push_str, range_eq, string_between, string_from_chars, to_upper,
    trim, trim_bounds, unicode_upper, cut_cr, lines, all_ascii, to_ascii_upper,
};

verus! {

// ---------------------------------------------------------------------------
// Output tree
// ---------------------------------------------------------------------------

/// The output file stem: the spec name for a merged build, else the first
/// API (or the spec name when there is none).
pub open spec fn stem_text(is_merged: bool, apis: Seq<Seq<char>>, spec_name: Seq<char>) -> Seq<char> {
    if is_merged || apis.len() == 0 {
        spec_name
    } else {
        apis[0]
    }
}

/// The file stem the generated header and source are named by.
pub fn output_stem(is_merged: bool, apis: &Vec<String>, spec_name: &str) -> (r: String)
    ensures
        r@ == stem_text(is_merged, texts(apis@), spec_name@),
{
    if is_merged || apis.len() == 0 {
        spec_name.to_owned()
    } else {
        apis[0].clone()
    }
}

/// Where the header and the source go, relative to the output directory:
/// `include/gloam/{stem}.h` and `src/{stem}.c`.
pub fn c_output_paths(stem: &str) -> (r: (String, String))
    ensures
        r.0@ == "include/gloam/"@ + stem@ + ".h"@,
        r.1@ == "src/"@ + stem@ + ".c"@,
{
    let mut h: Vec<char> = Vec::new();
    push_str(&mut h, "include/gloam/");
    push_str(&mut h, stem);
    push_str(&mut h, ".h");
    let mut c: Vec<char> = Vec::new();
    push_str(&mut c, "src/");
    push_str(&mut c, stem);
    push_str(&mut c, ".c");
    (string_from_chars(h.as_slice()), string_from_chars(c.as_slice()))
}

/// The header's include guard: the stem in upper case, then `_H`.
pub fn header_guard(stem: &str) -> (r: String)
    ensures
        r@ == unicode_upper(stem@) + "_H"@,
        all_ascii(stem@) ==> r@ == stem@.map_values(|c: char| to_ascii_upper(c)) + "_H"@,
{
    let upper = to_upper(stem);
    let mut g: Vec<char> = chars_of(upper.as_str());
    push_str(&mut g, "_H");
    string_from_chars(g.as_slice())
}

// ---------------------------------------------------------------------------
// Auxiliary headers
// ---------------------------------------------------------------------------

/// The headers to copy before any `#include` is followed: `xxhash.h` (which
/// the extension hash search needs; the unchecked Vulkan loader has none),
/// then the headers the spec requires.
pub open spec fn seed_text(required: Seq<Seq<char>>, unchecked: bool, is_vulkan: bool) -> Seq<Seq<char>> {
    (if unchecked && is_vulkan {
        Seq::<Seq<char>>::empty()
    } else {
        seq!["xxhash.h"@]
    }) + required
}

/// The first headers of the copy queue.
pub fn aux_header_seed(required: &Vec<String>, unchecked: bool, is_vulkan: bool) -> (r: Vec<String>)
    ensures
        texts(r@) == seed_text(texts(required@), unchecked, is_vulkan),
{
    let mut r: Vec<String> = Vec::new();
    if !(unchecked && is_vulkan) {
        r.push("xxhash.h".to_owned());
    }
    let ghost first = r@;
    let mut i: usize = 0;
    while i < required.len()
        invariant
            i <= required@.len(),
            r@ == first + required@.take(i as int),
            texts(first) == (if unchecked && is_vulkan {
                Seq::<Seq<char>>::empty()
            } else {
                seq!["xxhash.h"@]
            }),
        decreases required@.len() - i,
    {
        r.push(required[i].clone());
        proof {
            assert(required@.take(i as int + 1) =~= required@.take(i as int).push(required@[i as int]));
        }
        i = i + 1;
    }
    proof {
        assert(required@.take(required@.len() as int) =~= required@);
        assert(texts(r@) =~= texts(first) + texts(required@));
    }
    r
}

/// The header a line names in a quoted `#include "..."`, if it has one:
/// the line trimmed starts with `#include`, and what follows, trimmed,
/// opens a quote that a later quote closes.
pub open spec fn include_target(line: Seq<char>) -> Option<Seq<char>> {
    let t = trim(line);
    if t.len() >= 8 && t.take(8) == "#include"@ {
        let rest = trim(t.skip(8));
        if rest.len() > 0 && rest[0] == '"' {
            match find(rest.skip(1), '"') {
                Some(e) => Some(rest.subrange(1, 1 + e)),
                None => None,
            }
        } else {
            None
        }
    } else {
        None
    }
}

/// An included path, taken relative to the directory of the header that
/// includes it.
pub open spec fn resolved_path(dir: Seq<char>, included: Seq<char>) -> Seq<char> {
    if dir.len() == 0 {
        included
    } else {
        dir + "/"@ + included
    }
}

/// The resolved targets of the quoted includes among `ls`, in order.
pub open spec fn targets_in(ls: Seq<Seq<char>>, dir: Seq<char>) -> Seq<Seq<char>>
    decreases ls.len(),
{
    if ls.len() == 0 {
        Seq::empty()
    } else {
        (match include_target(ls[0]) {
            Some(t) => seq![resolved_path(dir, t)],
            None => Seq::<Seq<char>>::empty(),
        }) + targets_in(ls.drop_first(), dir)
    }
}

/// The headers a header's text includes with quotes, resolved against its
/// directory `dir`, line by line.
pub open spec fn include_targets(content: Seq<char>, dir: Seq<char>) -> Seq<Seq<char>> {
    targets_in(lines(content), dir)
}

/// The quoted include of the line `s[lo..hi]`, resolved against `dir`.
fn line_include(s: &[char], lo: usize, hi: usize, dir: &str) -> (r: Option<String>)
    requires
        lo <= hi <= s@.len(),
    ensures
        match include_target(s@.subrange(lo as int, hi as int)) {
            Some(t) => r matches Some(p) && p@ == resolved_path(dir@, t),
            None => r is None,
        },
{
    let ghost line = s@.subrange(lo as int, hi as int);
    let (a, b) = trim_bounds(s, lo, hi);
    let ghost t = s@.subrange(a as int, b as int);
    assert(t == trim(line));
    if b - a < 8 || !range_eq(s, a, a + 8, "#include") {
        proof {
            if t.len() >= 8 {
                assert(t.take(8) =~= s@.subrange(a as int, a + 8));
            }
        }
        return None;
    }
    assert(t.take(8) =~= s@.subrange(a as int, a + 8));
    let (c, d) = trim_bounds(s, a + 8, b);
    let ghost rest = s@.subrange(c as int, d as int);
    assert(t.skip(8) =~= s@.subrange(a + 8, b as int));
    assert(rest == trim(t.skip(8)));
    if c == d || s[c] != '"' {
        return None;
    }
    assert(rest[0] == s@[c as int]);
    assert(rest.skip(1) =~= s@.subrange(c + 1, d as int));
    match find_in(s, '"', c + 1, d) {
        None => None,
        Some(e) => {
            let included = string_between(s, c + 1, e);
            assert(rest.subrange(1, 1 + (e - (c + 1))) =~= s@.subrange(c + 1, e as int));
            let mut p: Vec<char> = chars_of(dir);
            if p.len() == 0 {
                Some(included)
            } else {
                push_str(&mut p, "/");
                push_str(&mut p, included.as_str());
                Some(string_from_chars(p.as_slice()))
            }
        },
    }
}

/// The headers `content` includes with quotes (`#include "..."`), in the
/// order of its lines, each resolved against `hdr_dir`, the directory of
/// the including header (empty: the include root).  Angle-bracket includes
/// name system headers, which are not copied.
pub fn quoted_includes(content: &str, hdr_dir: &str) -> (r: Vec<String>)
    ensures
        texts(r@) == include_targets(content@, hdr_dir@),
{
    let s = chars_of(content);
    let n = s.len();
    let mut r: Vec<String> = Vec::new();
    let mut pos: usize = 0;
    assert(s@.subrange(0, n as int) =~= content@);
    assert(texts(r@) =~= Seq::<Seq<char>>::empty());
    while pos < n
        invariant
            n == s@.len(),
            s@ == content@,
            pos <= n,
            texts(r@) + targets_in(lines(s@.subrange(pos as int, n as int)), hdr_dir@)
                == targets_in(lines(content@), hdr_dir@),
        decreases n - pos,
    {
        let ghost sub = s@.subrange(pos as int, n as int);
        let ghost before = texts(r@);
        match find_in(s.as_slice(), '\n', pos, n) {
            Some(k) => {
                let ghost kk = k - pos;
                assert(sub.subrange(0, kk) =~= s@.subrange(pos as int, k as int));
                assert(sub.subrange(kk + 1, sub.len() as int) =~= s@.subrange(k + 1, n as int));
                let ghost l = cut_cr(s@.subrange(pos as int, k as int));
                let ghost rest_lines = lines(s@.subrange(k + 1, n as int));
                assert(lines(sub) == seq![l] + rest_lines);
                let mut end = k;
                if end > pos && s[end - 1] == '\r' {
                    end = end - 1;
                }
                assert(l =~= s@.subrange(pos as int, end as int));
                assert((seq![l] + rest_lines).drop_first() =~= rest_lines);
                assert((seq![l] + rest_lines)[0] == l);
                match line_include(s.as_slice(), pos, end, hdr_dir) {
                    Some(p) => {
                        r.push(p);
                        proof {
                            assert(texts(r@) =~= before + seq![p@]);
                        }
                    },
                    None => {},
                }
                proof {
                    assert(texts(r@) + targets_in(rest_lines, hdr_dir@) =~= before + targets_in(lines(sub), hdr_dir@));
                }
                pos = k + 1;
            },
            None => {
                assert(lines(sub) == seq![sub]);
                assert(seq![sub].drop_first() =~= Seq::<Seq<char>>::empty());
                match line_include(s.as_slice(), pos, n, hdr_dir) {
                    Some(p) => {
                        r.push(p);
                        proof {
                            assert(texts(r@) =~= before + seq![p@]);
                        }
                    },
                    None => {},
                }
                proof {
                    assert(s@.subrange(n as int, n as int) =~= Seq::<char>::empty());
                    assert(lines(s@.subrange(n as int, n as int)) =~= Seq::<Seq<char>>::empty());
                    assert(texts(r@) + targets_in(Seq::<Seq<char>>::empty(), hdr_dir@) =~= before + targets_in(lines(sub), hdr_dir@));
                }
                pos = n;
            },
        }
    }
    proof {
        assert(s@.subrange(n as int, n as int) =~= Seq::<char>::empty());
        assert(lines(s@.subrange(n as int, n as int)) =~= Seq::<Seq<char>>::empty());
        assert(texts(r@) + Seq::<Seq<char>>::empty() =~= texts(r@));
    }
    r
}

/// Where the next header to copy sits in the queue: the last one not
/// copied yet (-1 if there is none).
pub open spec fn last_uncopied(queue: Seq<Seq<char>>, copied: Seq<Seq<char>>) -> int
    decreases queue.len(),
{
    if queue.len() == 0 {
        -1
    } else if !copied.contains(queue.last()) {
        queue.len() - 1
    } else {
        last_uncopied(queue.drop_last(), copied)
    }
}

/// The last uncopied header is one of the queue's.
proof fn lemma_last_uncopied_bounds(queue: Seq<Seq<char>>, copied: Seq<Seq<char>>)
    ensures
        -1 <= last_uncopied(queue, copied) < queue.len(),
        last_uncopied(queue, copied) >= 0 ==> !copied.contains(queue[last_uncopied(queue, copied)]),
    decreases queue.len(),
{
    if queue.len() > 0 && copied.contains(queue.last()) {
        lemma_last_uncopied_bounds(queue.drop_last(), copied);
    }
}

/// Take the next header to copy off the end of the queue, passing over
/// those already copied, and mark it copied; `None` once every queued
/// header has been copied.
pub fn next_header(queue: &mut Vec<String>, copied: &mut Vec<String>) -> (r: Option<String>)
    ensures
        ({
            let k = last_uncopied(texts(old(queue)@), texts(old(copied)@));
            if k < 0 {
                r is None && final(queue)@.len() == 0 && texts(final(copied)@) == texts(old(copied)@)
            } else {
                r matches Some(h) && h@ == texts(old(queue)@)[k] && texts(final(queue)@) == texts(old(queue)@).take(k)
                    && texts(final(copied)@) == texts(old(copied)@).push(h@)
            }
        }),
{
    let ghost q0 = texts(queue@);
    let ghost c0 = texts(copied@);
    proof {
        lemma_last_uncopied_bounds(q0, c0);
    }
    loop
        invariant
            q0 == texts(old(queue)@),
            c0 == texts(old(copied)@),
            texts(copied@) == c0,
            texts(queue@) == q0.take(texts(queue@).len() as int),
            texts(queue@).len() <= q0.len(),
            last_uncopied(q0, c0) == last_uncopied(texts(queue@), c0),
            -1 <= last_uncopied(q0, c0) < q0.len(),
            last_uncopied(q0, c0) >= 0 ==> !c0.contains(q0[last_uncopied(q0, c0)]),
        decreases queue@.len(),
    {
        let ghost before = texts(queue@);
        match queue.pop() {
            None => {
                assert(before.len() == 0);
                return None;
            },
            Some(h) => {
                proof {
                    assert(texts(queue@) =~= before.drop_last());
                    assert(before.last() == h@);
                    assert(before.drop_last() =~= q0.take(before.len() - 1));
                }
                if !names_contain(copied, h.as_str()) {
                    proof {
                        assert(last_uncopied(before, c0) == before.len() - 1);
                        assert(q0[before.len() - 1] == before[before.len() - 1]);
                    }
                    copied.push(h.clone());
                    proof {
                        assert(texts(copied@) =~= c0.push(h@));
                    }
                    return Some(h);
                }
            },
        }
    }
}

/// The headers of `found` that are not copied yet, in order.
pub open spec fn uncopied(found: Seq<Seq<char>>, copied: Seq<Seq<char>>) -> Seq<Seq<char>>
    decreases found.len(),
{
    if found.len() == 0 {
        Seq::empty()
    } else if copied.contains(found.last()) {
        uncopied(found.drop_last(), copied)
    } else {
        uncopied(found.drop_last(), copied).push(found.last())
    }
}

/// Queue the headers a copied header includes, leaving out those already
/// copied.
pub fn queue_includes(queue: &mut Vec<String>, copied: &Vec<String>, found: Vec<String>)
    ensures
        texts(final(queue)@) == texts(old(queue)@) + uncopied(texts(found@), texts(copied@)),
{
    let ghost q0 = texts(queue@);
    let ghost fv = texts(found@);
    let ghost cv = texts(copied@);
    let mut i: usize = 0;
    assert(fv.take(0) =~= Seq::<Seq<char>>::empty());
    assert(texts(queue@) =~= q0 + uncopied(fv.take(0), cv));
    while i < found.len()
        invariant
            i <= found@.len(),
            fv == texts(found@),
            cv == texts(copied@),
            texts(queue@) == q0 + uncopied(fv.take(i as int), cv),
        decreases found@.len() - i,
    {
        proof {
            assert(fv.take(i + 1).drop_last() =~= fv.take(i as int));
            assert(fv.take(i + 1).last() == fv[i as int]);
        }
        if !names_contain(copied, found[i].as_str()) {
            let ghost before = texts(queue@);
            queue.push(found[i].clone());
            proof {
                assert(texts(queue@) =~= before.push(fv[i as int]));
            }
        }
        i = i + 1;
    }
    assert(fv.take(found@.len() as int) =~= fv);
}

// ---------------------------------------------------------------------------
// Unchecked Vulkan offset table
// ---------------------------------------------------------------------------

/// A command as the unchecked Vulkan offset table sees it, in table order.
#[derive(Debug, Clone)]
pub struct OffsetCommand {
    /// The command's index into the name-offset table.
    pub index: u16,
    pub name: String,
    /// The platform macro guarding the command, if any.
    pub protect: Option<String>,
}

/// One row of the offset table.
#[derive(Debug, Clone)]
pub struct OffsetEntry {
    pub index: u16,
    /// The offset of the command's name in the name blob.
    pub offset: u32,
    pub name: String,
    /// Whether this is the final row of the whole table.
    pub last: bool,
}

/// A run of rows that share one guard (`""`: unguarded), emitted inside a
/// single `#if`/`#else`/`#endif`.
#[derive(Debug, Clone)]
pub struct OffsetGroup {
    pub protect: String,
    pub entries: Vec<OffsetEntry>,
}

/// The content of an [`OffsetEntry`].
pub struct OffsetEntryView {
    pub index: u16,
    pub offset: u32,
    pub name: Seq<char>,
    pub last: bool,
}

impl View for OffsetEntry {
    type V = OffsetEntryView;

    open spec fn view(&self) -> OffsetEntryView {
        OffsetEntryView { index: self.index, offset: self.offset, name: self.name@, last: self.last }
    }
}

/// A guard as text: the macro, or empty for none.
pub open spec fn protect_text(p: Option<String>) -> Seq<char> {
    match p {
        Some(m) => m@,
        None => Seq::empty(),
    }
}

/// The row of command `i` of `cmds`, with its guard.
pub open spec fn offset_row(cmds: Seq<OffsetCommand>, offsets: Seq<u32>, i: int) -> (Seq<char>, OffsetEntryView) {
    (
        protect_text(cmds[i].protect),
        OffsetEntryView {
            index: cmds[i].index,
            offset: offsets[cmds[i].index as int],
            name: cmds[i].name@,
            last: i + 1 == cmds.len(),
        },
    )
}

/// The rows of the first `n` commands, each with its guard.
pub open spec fn offset_rows(cmds: Seq<OffsetCommand>, offsets: Seq<u32>, n: int) -> Seq<(Seq<char>, OffsetEntryView)> {
    Seq::new(n as nat, |i: int| offset_row(cmds, offsets, i))
}

/// The (guard, row) pairs a list of groups stands for, in order.
pub open spec fn group_rows(gs: Seq<OffsetGroup>) -> Seq<(Seq<char>, OffsetEntryView)>
    decreases gs.len(),
{
    if gs.len() == 0 {
        Seq::empty()
    } else {
        group_rows(gs.drop_last()) + gs.last().entries@.map_values(
            |e: OffsetEntry| (gs.last().protect@, e@),
        )
    }
}

/// Every group has a row and no two neighbouring groups share a guard.
pub open spec fn runs_coalesced(gs: Seq<OffsetGroup>) -> bool {
    &&& forall|k: int| 0 <= k < gs.len() ==> #[trigger] gs[k].entries@.len() > 0
    &&& forall|k: int| 0 < k < gs.len() ==> (#[trigger] gs[k].protect)@ != gs[k - 1].protect@
}

/// Adding a row to the last group adds its pair at the end.
proof fn lemma_rows_extend(before: Seq<OffsetGroup>, new_last: OffsetGroup, e: OffsetEntry)
    requires
        before.len() > 0,
        new_last.protect == before.last().protect,
        new_last.entries@ == before.last().entries@.push(e),
        runs_coalesced(before),
    ensures
        group_rows(before.drop_last().push(new_last)) == group_rows(before).push((new_last.protect@, e@)),
        runs_coalesced(before.drop_last().push(new_last)),
{
    let after = before.drop_last().push(new_last);
    let old_last = before.last();
    assert(after.drop_last() =~= before.drop_last());
    assert(new_last.entries@.map_values(|x: OffsetEntry| (new_last.protect@, x@)) =~= old_last.entries@.map_values(
        |x: OffsetEntry| (old_last.protect@, x@),
    ).push((new_last.protect@, e@)));
    assert forall|k: int| 0 <= k < after.len() implies #[trigger] after[k].entries@.len() > 0 by {
        if k < after.len() - 1 {
            assert(after[k] == before[k]);
        } else {
            assert(after[k] == new_last);
        }
    }
    assert forall|k: int| 0 < k < after.len() implies (#[trigger] after[k].protect)@ != after[k - 1].protect@ by {
        assert(after[k - 1] == before[k - 1]);
        if k < after.len() - 1 {
            assert(after[k] == before[k]);
        } else {
            assert(before[k] == old_last);
        }
    }
}

/// Opening a group with another guard than the last adds its pair at the end.
proof fn lemma_rows_new_group(before: Seq<OffsetGroup>, grp: OffsetGroup, e: OffsetEntry)
    requires
        grp.entries@ == seq![e],
        runs_coalesced(before),
        before.len() > 0 ==> before.last().protect@ != grp.protect@,
    ensures
        group_rows(before.push(grp)) == group_rows(before).push((grp.protect@, e@)),
        runs_coalesced(before.push(grp)),
{
    let after = before.push(grp);
    assert(after.drop_last() =~= before);
    assert(grp.entries@.map_values(|x: OffsetEntry| (grp.protect@, x@)) =~= seq![(grp.protect@, e@)]);
    assert forall|k: int| 0 <= k < after.len() implies #[trigger] after[k].entries@.len() > 0 by {
        if k < after.len() - 1 {
            assert(after[k] == before[k]);
        }
    }
    assert forall|k: int| 0 < k < after.len() implies (#[trigger] after[k].protect)@ != after[k - 1].protect@ by {
        assert(after[k - 1] == before[k - 1]);
        if k < after.len() - 1 {
            assert(after[k] == before[k]);
        }
    }
}

/// The offset table of the unchecked Vulkan loader, for the commands in
/// table order and the name offsets of the blob: one row per command
/// (its index, its name's offset, its name, and whether it is the final
/// row), coalesced into runs of consecutive rows that share a guard, so
/// that each run is emitted inside one `#if`.  Any other build has no such
/// table.
pub fn vk_offset_groups(
    commands: &Vec<OffsetCommand>,
    fn_name_offsets: &Vec<u32>,
    unchecked: bool,
    is_vulkan: bool,
) -> (r: Vec<OffsetGroup>)
    requires
        unchecked && is_vulkan ==> forall|i: int|
            0 <= i < commands@.len() ==> (#[trigger] commands@[i]).index < fn_name_offsets@.len(),
    ensures
        !(unchecked && is_vulkan) ==> r@.len() == 0,
        unchecked && is_vulkan ==> group_rows(r@) == offset_rows(commands@, fn_name_offsets@, commands@.len() as int),
        runs_coalesced(r@),
{
    let mut groups: Vec<OffsetGroup> = Vec::new();
    if !(unchecked && is_vulkan) {
        return groups;
    }
    let total = commands.len();
    let mut i: usize = 0;
    while i < total
        invariant
            total == commands@.len(),
            i <= total,
            forall|j: int| 0 <= j < commands@.len() ==> (#[trigger] commands@[j]).index < fn_name_offsets@.len(),
            group_rows(groups@) == offset_rows(commands@, fn_name_offsets@, i as int),
            runs_coalesced(groups@),
        decreases total - i,
    {
        let cmd = &commands[i];
        let protect: String = match &cmd.protect {
            Some(p) => p.clone(),
            None => String::new(),
        };
        let entry = OffsetEntry {
            index: cmd.index,
            offset: fn_name_offsets[cmd.index as usize],
            name: cmd.name.clone(),
            last: i + 1 == total,
        };
        let ghost before = groups@;
        let ghost row = offset_row(commands@, fn_name_offsets@, i as int);
        assert(row == (protect@, entry@));
        let n = groups.len();
        if n > 0 && str_eq(groups[n - 1].protect.as_str(), protect.as_str()) {
            let mut last = groups.pop().unwrap();
            last.entries.push(entry);
            groups.push(last);
            proof {
                assert(before.drop_last().push(last) == groups@);
                lemma_rows_extend(before, last, entry);
            }
        } else {
            let mut one: Vec<OffsetEntry> = Vec::new();
            one.push(entry);
            let grp = OffsetGroup { protect, entries: one };
            groups.push(grp);
            proof {
                lemma_rows_new_group(before, grp, entry);
            }
        }
        proof {
            assert(offset_rows(commands@, fn_name_offsets@, i + 1) =~= offset_rows(commands@, fn_name_offsets@, i as int).push(row));
        }
        i = i + 1;
    }
    groups
}

// ---------------------------------------------------------------------------
// The whole plan
// ---------------------------------------------------------------------------

/// Everything the C backend decides before rendering its templates.
#[derive(Debug)]
pub struct CPlan {
    pub stem: String,
    /// The header's include guard.
    pub guard: String,
    /// `include/gloam/{stem}.h`, relative to the output directory.
    pub header_path: String,
    /// `src/{stem}.c`, relative to the output directory.
    pub source_path: String,
    /// The command-name blob.
    pub fn_names: FnNameLayout,
    /// The offset marking a command left out on this platform.
    pub sentinel: u64,
    /// The unchecked Vulkan offset table (empty for other builds).
    pub offset_groups: Vec<OffsetGroup>,
    /// The headers the copy queue starts from.
    pub aux_headers: Vec<String>,
}

/// The names of the commands, in order.
pub open spec fn command_names(cmds: Seq<OffsetCommand>) -> Seq<String> {
    cmds.map_values(|c: OffsetCommand| c.name)
}

/// Plan the C output for the selected commands (in table order), the
/// requested APIs and the headers the spec requires.  The name blob must
/// be addressable with 32-bit offsets.
pub fn plan_c_output(
    is_merged: bool,
    apis: &Vec<String>,
    spec_name: &str,
    commands: &Vec<OffsetCommand>,
    required_headers: &Vec<String>,
    unchecked: bool,
    is_vulkan: bool,
) -> (r: CPlan)
    requires
        blob_offset(command_names(commands@), commands@.len() as int) <= u32::MAX,
        unchecked && is_vulkan ==> forall|i: int|
            0 <= i < commands@.len() ==> (#[trigger] commands@[i]).index < commands@.len(),
    ensures
        r.stem@ == stem_text(is_merged, texts(apis@), spec_name@),
        r.guard@ == unicode_upper(r.stem@) + "_H"@,
        r.header_path@ == "include/gloam/"@ + r.stem@ + ".h"@,
        r.source_path@ == "src/"@ + r.stem@ + ".c"@,
        r.fn_names.offsets@.len() == commands@.len(),
        forall|i: int| 0 <= i < commands@.len() ==> r.fn_names.offsets@[i] == blob_offset(command_names(commands@), i),
        r.fn_names.blob_size == blob_offset(command_names(commands@), commands@.len() as int),
        r.fn_names.offset_type@ == (if r.fn_names.blob_size <= u16::MAX { "uint16_t"@ } else { "uint32_t"@ }),
        r.sentinel == (if r.fn_names.offset_type@ == "uint16_t"@ { 65535u64 } else { 4294967295u64 }),
        !(unchecked && is_vulkan) ==> r.offset_groups@.len() == 0,
        unchecked && is_vulkan ==> group_rows(r.offset_groups@) == offset_rows(commands@, r.fn_names.offsets@, commands@.len() as int),
        runs_coalesced(r.offset_groups@),
        texts(r.aux_headers@) == seed_text(texts(required_headers@), unchecked, is_vulkan),
{
    let stem = output_stem(is_merged, apis, spec_name);
    let guard = header_guard(stem.as_str());
    let (header_path, source_path) = c_output_paths(stem.as_str());
    let mut names: Vec<String> = Vec::new();
    let mut i: usize = 0;
    while i < commands.len()
        invariant
            i <= commands@.len(),
            names@ == command_names(commands@).take(i as int),
        decreases commands@.len() - i,
    {
        names.push(commands[i].name.clone());
        proof {
            assert(command_names(commands@).take(i + 1) =~= command_names(commands@).take(i as int).push(commands@[i as int].name));
        }
        i = i + 1;
    }
    assert(command_names(commands@).take(commands@.len() as int) =~= command_names(commands@));
    let fn_names = FnNameLayout::build(names.as_slice());
    let sentinel = fn_names.unchecked_sentinel();
    let offset_groups = vk_offset_groups(commands, &fn_names.offsets, unchecked, is_vulkan);
    let aux_headers = aux_header_seed(required_headers, unchecked, is_vulkan);
    CPlan { stem, guard, header_path, source_path, fn_names, sentinel, offset_groups, aux_headers }
}

} // verus!
