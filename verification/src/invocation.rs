//! The command line a run records in the files it generates.

use vstd::prelude::*;

use crate::cli::texts;
use crate::parse::types::{joined, push_joined};
use crate::text::{chars_eq, chars_of, range_eq, string_from_chars};

verus! {

/// The arguments from `raw[i]` on that the recorded command line keeps:
/// `--lock` drops itself and the value after it, `--lock=...` drops
/// itself, and the program name becomes `gloam`.
pub open spec fn kept_args(raw: Seq<Seq<char>>, i: int) -> Seq<Seq<char>>
    decreases raw.len() - i,
{
    if i < 0 || i >= raw.len() {
        Seq::empty()
    } else if raw[i] == "--lock"@ {
        if i + 1 >= raw.len() {
            Seq::empty()
        } else {
            kept_args(raw, i + 2)
        }
    } else if raw[i].len() >= 7 && raw[i].take(7) == "--lock="@ {
        kept_args(raw, i + 1)
    } else {
        seq![if i == 0 { "gloam"@ } else { raw[i] }] + kept_args(raw, i + 1)
    }
}

/// The command line a run records in the files it generates: the
/// arguments `raw` (program name first) with `--lock` and its value left
/// out, since locking only pins provenance and a locked rerun with
/// otherwise equal arguments writes the same files, joined with spaces.
pub fn command_line_text(raw: &Vec<String>) -> (r: String)
    ensures
        r@ == joined(kept_args(texts(raw@), 0), " "@),
{
    let ghost rv = texts(raw@);
    let mut args: Vec<String> = Vec::new();
    let mut i: usize = 0;
    while i < raw.len()
        invariant
            rv == texts(raw@),
            i <= raw@.len(),
            texts(args@) + kept_args(rv, i as int) == kept_args(rv, 0),
        decreases raw@.len() - i,
    {
        let a = chars_of(raw[i].as_str());
        assert(a@ == rv[i as int]);
        if chars_eq(a.as_slice(), "--lock") {
            if i + 1 >= raw.len() {
                i = raw.len();
            } else {
                i = i + 2;
            }
        } else if a.len() >= 7 && range_eq(a.as_slice(), 0, 7, "--lock=") {
            assert(a@.take(7) =~= a@.subrange(0, 7));
            i = i + 1;
        } else {
            proof {
                if a@.len() >= 7 {
                    assert(a@.take(7) =~= a@.subrange(0, 7));
                }
            }
            let ghost before = args@;
            if i == 0 {
                args.push("gloam".to_owned());
            } else {
                args.push(raw[i].clone());
            }
            proof {
                assert(texts(args@) =~= texts(before) + seq![texts(args@).last()]);
                assert(texts(args@) + kept_args(rv, i + 1) =~= texts(before) + kept_args(rv, i as int));
            }
            i = i + 1;
        }
    }
    assert(texts(args@) + Seq::<Seq<char>>::empty() =~= texts(args@));
    let mut out: Vec<char> = Vec::new();
    push_joined(&mut out, &args, " ");
    assert(out@ =~= joined(args@.map_values(|l: String| l@), " "@));
    string_from_chars(out.as_slice())
}

} // verus!
