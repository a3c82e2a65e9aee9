use vstd::prelude::*;

verus! {

/// One command-line argument: its text when it is valid Unicode, otherwise
/// the platform string itself, which is carried through untouched.
#[derive(Debug, PartialEq, Eq)]
pub enum CliArg<R> {
    Text(String),
    Other(R),
}

/// `s` is the end-of-options terminator `--`.
pub open spec fn is_terminator(s: Seq<char>) -> bool {
    s =~= seq!['-', '-']
}

/// `s` is the short in-place option with a suffix attached directly,
/// not introduced by `=`: `-iSUFFIX` with `SUFFIX` non-empty.
pub open spec fn has_attached_suffix(s: Seq<char>) -> bool {
    &&& s.len() > 2
    &&& s[0] == '-'
    &&& s[1] == 'i'
    &&& s[2] != '='
}

/// `-iSUFFIX` spelled as `-i=SUFFIX`.
pub open spec fn equals_form(s: Seq<char>) -> Seq<char> {
    seq!['-', 'i', '='] + s.skip(2)
}

/// `a` is the text argument `--`.
pub open spec fn is_terminator_arg<R>(a: CliArg<R>) -> bool {
    a matches CliArg::Text(t) && is_terminator(t@)
}

/// Some argument before position `i` is the terminator `--`.
pub open spec fn after_terminator<R>(args: Seq<CliArg<R>>, i: int) -> bool {
    exists|j: int| 0 <= j < i && #[trigger] is_terminator_arg(args[j])
}

/// What the rewriting makes of `input`, given whether a terminator came before it.
pub open spec fn rewritten_as<R>(input: CliArg<R>, output: CliArg<R>, past_terminator: bool) -> bool {
    match input {
        CliArg::Text(s) => if !past_terminator && has_attached_suffix(s@) {
            output matches CliArg::Text(t) && t@ == equals_form(s@)
        } else {
            output == input
        },
        CliArg::Other(_) => output == input,
    }
}

fn is_terminator_text(s: &String) -> (b: bool)
    ensures
        b == is_terminator(s@),
{
    let t = s.as_str();
    let n = t.unicode_len();
    if n == 2 && t.get_char(0) == '-' && t.get_char(1) == '-' {
        assert(t@ =~= seq!['-', '-']);
        true
    } else {
        false
    }
}

fn is_attached_suffix_text(s: &String) -> (b: bool)
    ensures
        b == has_attached_suffix(s@),
{
    let t = s.as_str();
    let n = t.unicode_len();
    n > 2 && t.get_char(0) == '-' && t.get_char(1) == 'i' && t.get_char(2) != '='
}

fn to_equals_form(s: &String) -> (r: String)
    requires
        has_attached_suffix(s@),
    ensures
        r@ == equals_form(s@),
{
    let t = s.as_str();
    let n = t.unicode_len();
    let suffix = t.substring_char(2, n);
    let head = String::from_str("-i=");
    proof {
        reveal_strlit("-i=");
    }
    let r = head.concat(suffix);
    assert(r@ =~= equals_form(s@));
    r
}

/// Rewrites every `-iSUFFIX` (a short in-place option with a non-empty
/// suffix attached without `=`) into `-i=SUFFIX`, so that the in-place
/// option, which only takes its suffix after `=`, still accepts the attached
/// short form. `-i`, `-i=...`, `--in-place[=...]`, every other argument,
/// the terminator `--` itself and everything after it are kept as they are.
/// `-iE` is `-i` with suffix `E`: the in-place option does not stack.
pub fn preprocess_in_place_suffix<R>(args: Vec<CliArg<R>>) -> (out: Vec<CliArg<R>>)
    ensures
        is_rewriting_of(args@, out@),
{
    let ghost orig = args@;
    let mut out: Vec<CliArg<R>> = Vec::new();
    let mut past_terminator = false;
    for arg in it: args.into_iter()
        invariant
            it.seq() == orig,
            out.len() == it.index(),
            past_terminator == after_terminator(orig, it.index() as int),
            forall|i: int|
                0 <= i < out.len() ==> rewritten_as(
                    #[trigger] orig[i],
                    out@[i],
                    after_terminator(orig, i),
                ),
    {
        let ghost k = out.len() as int;
        assert(arg == orig[k]);
        let next = match arg {
            CliArg::Text(s) => {
                if past_terminator {
                    CliArg::Text(s)
                } else if is_terminator_text(&s) {
                    past_terminator = true;
                    CliArg::Text(s)
                } else if is_attached_suffix_text(&s) {
                    CliArg::Text(to_equals_form(&s))
                } else {
                    CliArg::Text(s)
                }
            },
            CliArg::Other(o) => CliArg::Other(o),
        };
        out.push(next);
        proof {
            if past_terminator && !after_terminator(orig, k) {
                assert(is_terminator_arg(orig[k]));
            }
            if after_terminator(orig, k + 1) && !after_terminator(orig, k) {
                let j = choose|j: int| 0 <= j < k + 1 && #[trigger] is_terminator_arg(orig[j]);
                assert(j == k);
            }
        }
    }
    out
}

/// The rewriting requirement of `preprocess_in_place_suffix`: `out` is what it
/// makes of `args`.
pub open spec fn is_rewriting_of<R>(args: Seq<CliArg<R>>, out: Seq<CliArg<R>>) -> bool {
    &&& out.len() == args.len()
    &&& forall|i: int|
        0 <= i < args.len() ==> rewritten_as(#[trigger] args[i], out[i], after_terminator(args, i))
}

/// The rewriting keeps every terminator where it is and makes no new one.
proof fn lemma_terminators_kept<R>(args: Seq<CliArg<R>>, out: Seq<CliArg<R>>)
    requires
        is_rewriting_of(args, out),
    ensures
        forall|i: int|
            0 <= i < args.len() ==> #[trigger] is_terminator_arg(args[i]) == is_terminator_arg(
                out[i],
            ),
        forall|i: int|
            0 <= i <= args.len() ==> #[trigger] after_terminator(args, i) == after_terminator(
                out,
                i,
            ),
{
    assert forall|i: int| 0 <= i < args.len() implies #[trigger] is_terminator_arg(args[i])
        == is_terminator_arg(out[i]) by {
        if let CliArg::Text(s) = args[i] {
            if !after_terminator(args, i) && has_attached_suffix(s@) {
                if let CliArg::Text(t) = out[i] {
                    assert(t@[2] == '=');
                }
            }
        }
    }
    assert forall|i: int| 0 <= i <= args.len() implies #[trigger] after_terminator(args, i)
        == after_terminator(out, i) by {
        if after_terminator(args, i) {
            let j = choose|j: int| 0 <= j < i && #[trigger] is_terminator_arg(args[j]);
            assert(is_terminator_arg(out[j]));
        }
        if after_terminator(out, i) {
            let j = choose|j: int| 0 <= j < i && #[trigger] is_terminator_arg(out[j]);
            assert(is_terminator_arg(args[j]));
        }
    }
}

/// Only `-iSUFFIX` arguments before the terminator change: every other
/// argument, short-option stacks such as `-En`, `-i`, `-i=SUFFIX`,
/// `--in-place[=SUFFIX]` and anything after `--` among them, comes out as it
/// went in.
pub proof fn lemma_only_attached_in_place_changes<R>(args: Seq<CliArg<R>>, out: Seq<CliArg<R>>)
    requires
        is_rewriting_of(args, out),
    ensures
        forall|i: int|
            0 <= i < args.len() && out[i] != args[i] ==> {
                &&& !after_terminator(args, i)
                &&& #[trigger] args[i] matches CliArg::Text(s)
                &&& has_attached_suffix(s@)
            },
{
}

/// No `-iSUFFIX` argument is left before the terminator after rewriting.
pub proof fn lemma_no_attached_suffix_left<R>(args: Seq<CliArg<R>>, out: Seq<CliArg<R>>)
    requires
        is_rewriting_of(args, out),
    ensures
        forall|i: int|
            0 <= i < out.len() && !after_terminator(out, i) ==> !(#[trigger] out[i] matches CliArg::Text(
                t,
            ) && has_attached_suffix(t@)),
{
    lemma_terminators_kept(args, out);
    assert forall|i: int| 0 <= i < out.len() && !after_terminator(out, i) implies !(
    #[trigger] out[i] matches CliArg::Text(t) && has_attached_suffix(t@)) by {
        assert(after_terminator(args, i) == after_terminator(out, i));
        if let CliArg::Text(s) = args[i] {
            if has_attached_suffix(s@) {
                if let CliArg::Text(t) = out[i] {
                    assert(t@[2] == '=');
                }
            }
        }
    }
}

/// What the rewriting does, in terms of the argument texts: before any
/// argument that is exactly `--`, an argument `-iS` with `S` non-empty and
/// not starting with `=` becomes `-i=S`; any other argument, and every
/// argument after an exact `--`, comes out unchanged. Longer arguments that
/// begin with `--`, such as `--posix`, do not end the rewriting.
pub proof fn lemma_rewrite_by_text<R>(args: Seq<CliArg<R>>, out: Seq<CliArg<R>>)
    requires
        is_rewriting_of(args, out),
    ensures
        out.len() == args.len(),
        forall|i: int|
            0 <= i < args.len() && (forall|j: int|
                0 <= j < i ==> !(#[trigger] args[j] matches CliArg::Text(t) && t@ == seq!['-', '-']))
                && (args[i] matches CliArg::Text(s) && s@.len() > 2 && s@[0] == '-' && s@[1] == 'i'
                && s@[2] != '=') ==> (#[trigger] out[i] matches CliArg::Text(t) && t@ == seq![
                '-',
                'i',
                '=',
            ] + args[i]->Text_0@.subrange(2, args[i]->Text_0@.len() as int)),
        forall|i: int, j: int|
            0 <= j < i < args.len() && (#[trigger] args[j] matches CliArg::Text(t) && t@ == seq![
                '-',
                '-',
            ]) ==> #[trigger] out[i] == args[i],
        forall|i: int|
            0 <= i < args.len() && !(args[i] matches CliArg::Text(s) && s@.len() > 2 && s@[0] == '-'
                && s@[1] == 'i' && s@[2] != '=') ==> #[trigger] out[i] == args[i],
{
    assert forall|i: int|
        0 <= i < args.len() && (forall|j: int|
            0 <= j < i ==> !(#[trigger] args[j] matches CliArg::Text(t) && t@ == seq!['-', '-']))
            && (args[i] matches CliArg::Text(s) && s@.len() > 2 && s@[0] == '-' && s@[1] == 'i'
            && s@[2] != '=') implies (#[trigger] out[i] matches CliArg::Text(t) && t@ == seq![
        '-',
        'i',
        '=',
    ] + args[i]->Text_0@.subrange(2, args[i]->Text_0@.len() as int)) by {
        if after_terminator(args, i) {
            let j = choose|j: int| 0 <= j < i && #[trigger] is_terminator_arg(args[j]);
            if let CliArg::Text(t) = args[j] {
                assert(t@ =~= seq!['-', '-']);
            }
        }
        if let CliArg::Text(s) = args[i] {
            if let CliArg::Text(t) = out[i] {
                assert(t@ =~= seq!['-', 'i', '='] + s@.subrange(2, s@.len() as int));
            }
        }
    }
    assert forall|i: int, j: int|
        0 <= j < i < args.len() && (#[trigger] args[j] matches CliArg::Text(t) && t@ == seq![
            '-',
            '-',
        ]) implies #[trigger] out[i] == args[i] by {
        assert(is_terminator_arg(args[j]));
        assert(after_terminator(args, i));
    }
}

/// Rewriting is idempotent: running the rewriting again over its own output
/// gives back that output unchanged, since a `-i=SUFFIX` argument is never
/// rewritten and the terminator `--` neither appears nor disappears.
pub proof fn lemma_preprocess_idempotent<R>(
    args: Seq<CliArg<R>>,
    once: Seq<CliArg<R>>,
    twice: Seq<CliArg<R>>,
)
    requires
        is_rewriting_of(args, once),
        is_rewriting_of(once, twice),
    ensures
        twice == once,
{
    lemma_no_attached_suffix_left(args, once);
    assert forall|i: int| 0 <= i < once.len() implies #[trigger] twice[i] == once[i] by {
        if let CliArg::Text(t) = once[i] {
            if !after_terminator(once, i) {
                assert(!has_attached_suffix(t@));
            }
        }
    }
    assert(twice =~= once);
}

} // verus!
