use vstd::prelude::*;

use crate::command_line::{CommandLine, SedError};

verus! {

broadcast use vstd::seq_lib::group_to_multiset_ensures;

/// Where a script comes from: text given on the command line, or a file.
#[derive(Debug, PartialEq, Eq)]
pub enum ScriptValue {
    StringVal(String),
    PathVal(String),
}

/// Inserts `x` after the last element of `s` whose index is at most `x`'s,
/// searching from the end.
pub open spec fn insert_by_index<T>(s: Seq<(usize, T)>, x: (usize, T)) -> Seq<(usize, T)>
    decreases s.len(),
{
    if s.len() == 0 {
        seq![x]
    } else if s.last().0 <= x.0 {
        s.push(x)
    } else {
        insert_by_index(s.drop_last(), x).push(s.last())
    }
}

/// `s` sorted by index, elements with equal indices kept in their order.
pub open spec fn sort_by_index<T>(s: Seq<(usize, T)>) -> Seq<(usize, T)>
    decreases s.len(),
{
    if s.len() == 0 {
        s
    } else {
        insert_by_index(sort_by_index(s.drop_last()), s.last())
    }
}

/// The indices of `s` never decrease.
pub open spec fn sorted_by_index<T>(s: Seq<(usize, T)>) -> bool {
    forall|i: int, j: int| 0 <= i <= j < s.len() ==> s[i].0 <= s[j].0
}

/// The predicate "has index `k`".
pub open spec fn has_index<T>(k: usize) -> spec_fn((usize, T)) -> bool {
    |p: (usize, T)| p.0 == k
}

/// `-e` and `-f` occurrences, as indexed scripts, in the order the option
/// parser reports them: all expressions, then all script files.
pub open spec fn script_sources(cl: CommandLine) -> Seq<(usize, ScriptValue)> {
    cl.expressions@.map_values(|e: (usize, String)| (e.0, ScriptValue::StringVal(e.1)))
        + cl.script_files@.map_values(|f: (usize, String)| (f.0, ScriptValue::PathVal(f.1)))
}

/// The script is given through `-e` or `-f`, so that the first positional
/// argument is an input file.
pub open spec fn uses_script_options(cl: CommandLine) -> bool {
    cl.expressions@.len() > 0 || cl.script_files@.len() > 0
}

/// The scripts to run, in command-line order.
pub open spec fn expected_scripts(cl: CommandLine) -> Seq<ScriptValue> {
    if uses_script_options(cl) {
        sort_by_index(script_sources(cl)).map_values(|p: (usize, ScriptValue)| p.1)
    } else {
        seq![ScriptValue::StringVal(cl.script.unwrap())]
    }
}

/// The text of each string of `s`.
pub open spec fn string_views(s: Seq<String>) -> Seq<Seq<char>> {
    s.map_values(|f: String| f@)
}

/// The names of the input files, `-` (standard input) when none is given.
pub open spec fn expected_files(cl: CommandLine) -> Seq<Seq<char>> {
    let leading = if uses_script_options(cl) && cl.script is Some {
        seq![cl.script.unwrap()@]
    } else {
        Seq::empty()
    };
    let given = leading + string_views(cl.files@);
    if given.len() == 0 {
        seq![seq!['-']]
    } else {
        given
    }
}

/// Inserting at position `p`, behind which only larger indices follow, is
/// what `insert_by_index` does.
proof fn lemma_insert_by_index_at<T>(s: Seq<(usize, T)>, x: (usize, T), p: int)
    requires
        0 <= p <= s.len(),
        p == 0 || s[p - 1].0 <= x.0,
        forall|k: int| p <= k < s.len() ==> s[k].0 > x.0,
    ensures
        insert_by_index(s, x) == s.insert(p, x),
    decreases s.len(),
{
    if s.len() == 0 {
        assert(s.insert(p, x) =~= seq![x]);
    } else if s.last().0 <= x.0 {
        assert(s.insert(p, x) =~= s.push(x));
    } else {
        lemma_insert_by_index_at(s.drop_last(), x, p);
        assert(s.insert(p, x) =~= s.drop_last().insert(p, x).push(s.last()));
    }
}

/// What inserting does to the order, the elements and the elements of each
/// index.
proof fn lemma_insert_by_index<T>(s: Seq<(usize, T)>, x: (usize, T))
    ensures
        insert_by_index(s, x).len() == s.len() + 1,
        insert_by_index(s, x).to_multiset() =~= s.to_multiset().insert(x),
        sorted_by_index(s) ==> sorted_by_index(insert_by_index(s, x)),
        forall|k: usize|
            #[trigger] insert_by_index(s, x).filter(has_index(k)) == if x.0 == k {
                s.filter(has_index(k)).push(x)
            } else {
                s.filter(has_index(k))
            },
    decreases s.len(),
{
    reveal(Seq::filter);
    if s.len() == 0 {
        assert(seq![x].drop_last() =~= s);
        assert(s.push(x) =~= seq![x]);
    } else if s.last().0 <= x.0 {
        assert(s.push(x).drop_last() =~= s);
    } else {
        let t = s.drop_last();
        let l = s.last();
        lemma_insert_by_index(t, x);
        let r = insert_by_index(t, x);
        assert(s =~= t.push(l));
        assert(r.push(l).drop_last() =~= r);
        assert forall|k: usize|
            #[trigger] r.push(l).filter(has_index(k)) == if x.0 == k {
                s.filter(has_index(k)).push(x)
            } else {
                s.filter(has_index(k))
            } by {
            assert(r.push(l).filter(has_index(k)) == if l.0 == k {
                r.filter(has_index(k)).push(l)
            } else {
                r.filter(has_index(k))
            });
            assert(s.filter(has_index(k)) == if l.0 == k {
                t.filter(has_index(k)).push(l)
            } else {
                t.filter(has_index(k))
            });
        }
        if sorted_by_index(s) {
            assert forall|j: int| 0 <= j < t.len() implies #[trigger] t[j].0 <= l.0 by {
                assert(s[j] == t[j]);
            }
            assert(sorted_by_index(t));
            assert forall|i: int, j: int| 0 <= i <= j < r.push(l).len() implies r.push(
                l,
            )[i].0 <= r.push(l)[j].0 by {
                if j == r.len() && i < r.len() {
                    let e = r[i];
                    assert(r.contains(e));
                    assert(r.to_multiset().count(e) > 0);
                    if e != x {
                        assert(t.to_multiset().count(e) > 0);
                        assert(t.contains(e));
                        let m = choose|m: int| 0 <= m < t.len() && t[m] == e;
                        assert(t[m].0 <= l.0);
                    }
                }
            }
        }
    }
}

/// The stable sort by index: the indices of the result never decrease, the
/// result holds exactly the elements given, and the elements that share an
/// index keep the order in which they were given.
pub proof fn lemma_sort_by_index<T>(s: Seq<(usize, T)>)
    ensures
        sort_by_index(s).len() == s.len(),
        sorted_by_index(sort_by_index(s)),
        sort_by_index(s).to_multiset() =~= s.to_multiset(),
        forall|k: usize| #[trigger] sort_by_index(s).filter(has_index(k)) == s.filter(has_index(k)),
    decreases s.len(),
{
    reveal(Seq::filter);
    if s.len() > 0 {
        let t = s.drop_last();
        lemma_sort_by_index(t);
        lemma_insert_by_index(sort_by_index(t), s.last());
        assert(s =~= t.push(s.last()));
    }
}

/// Two sequences that hold the same elements still do once each element is
/// mapped through `f`.
proof fn lemma_multiset_map_values<A, B>(a: Seq<A>, b: Seq<A>, f: spec_fn(A) -> B)
    requires
        a.to_multiset() =~= b.to_multiset(),
    ensures
        a.map_values(f).to_multiset() =~= b.map_values(f).to_multiset(),
    decreases a.len(),
{
    broadcast use vstd::multiset::group_multiset_axioms;

    if a.len() == 0 {
        assert(a.to_multiset().len() == a.len());
        assert(b.to_multiset().len() == b.len());
        assert(a.map_values(f) =~= Seq::<B>::empty());
        assert(b.map_values(f) =~= Seq::<B>::empty());
    } else {
        let x = a.last();
        let a1 = a.drop_last();
        assert(a =~= a1.push(x));
        assert(a.to_multiset().count(x) > 0);
        assert(b.contains(x));
        let i = choose|i: int| 0 <= i < b.len() && b[i] == x;
        let b1 = b.remove(i);
        assert(b1.to_multiset() =~= b.to_multiset().remove(x));
        assert(b1.to_multiset() =~= a1.to_multiset());
        lemma_multiset_map_values(a1, b1, f);
        assert(a.map_values(f) =~= a1.map_values(f).push(f(x)));
        let bm = b.map_values(f);
        assert(bm.remove(i) =~= b1.map_values(f));
        assert(bm[i] == f(x));
        assert(bm.remove(i).to_multiset() =~= bm.to_multiset().remove(f(x)));
        assert(bm.to_multiset().count(f(x)) > 0);
        assert(bm.to_multiset() =~= bm.to_multiset().remove(f(x)).insert(f(x)));
    }
}

/// With `-e` or `-f`, the scripts are exactly the `-e` texts and the `-f`
/// files, each as often as it was given, in an order in which the argument
/// indices never decrease.
pub proof fn lemma_scripts_are_the_given_ones(cl: CommandLine, scripts: Seq<ScriptValue>)
    requires
        cl.expressions@.len() > 0 || cl.script_files@.len() > 0,
        scripts == expected_scripts(cl),
    ensures
        scripts.len() == cl.expressions@.len() + cl.script_files@.len(),
        scripts.to_multiset() =~= (cl.expressions@.map_values(
            |e: (usize, String)| ScriptValue::StringVal(e.1),
        ) + cl.script_files@.map_values(|f: (usize, String)| ScriptValue::PathVal(f.1))).to_multiset(),
        exists|ps: Seq<(usize, ScriptValue)>|
            {
                &&& ps.len() == scripts.len()
                &&& forall|k: int| 0 <= k < ps.len() ==> #[trigger] ps[k].1 == scripts[k]
                &&& forall|i: int, j: int| 0 <= i <= j < ps.len() ==> ps[i].0 <= ps[j].0
                &&& ps.to_multiset() =~= (cl.expressions@.map_values(
                    |e: (usize, String)| (e.0, ScriptValue::StringVal(e.1)),
                ) + cl.script_files@.map_values(
                    |f: (usize, String)| (f.0, ScriptValue::PathVal(f.1)),
                )).to_multiset()
            },
{
    let src = script_sources(cl);
    let direct = cl.expressions@.map_values(
        |e: (usize, String)| (e.0, ScriptValue::StringVal(e.1)),
    ) + cl.script_files@.map_values(|f: (usize, String)| (f.0, ScriptValue::PathVal(f.1)));
    assert(src =~= direct);
    let ps = sort_by_index(src);
    lemma_sort_by_index(src);
    let snd = |p: (usize, ScriptValue)| p.1;
    assert(scripts =~= ps.map_values(snd));
    lemma_multiset_map_values(ps, src, snd);
    let vals = cl.expressions@.map_values(|e: (usize, String)| ScriptValue::StringVal(e.1))
        + cl.script_files@.map_values(|f: (usize, String)| ScriptValue::PathVal(f.1));
    assert(src.map_values(snd) =~= vals);
    assert(ps.to_multiset().len() == src.to_multiset().len());
    assert(forall|k: int| 0 <= k < ps.len() ==> #[trigger] ps[k].1 == scripts[k]);
}

/// The input files are the command line's positional file arguments in the
/// order given, led by the first positional argument when the script came
/// from `-e` or `-f`; standard input `-` when there is none.
pub proof fn lemma_input_files_in_order(cl: CommandLine, files: Seq<String>)
    requires
        string_views(files) == expected_files(cl),
    ensures
        ({
            let lead: int = if (cl.expressions@.len() > 0 || cl.script_files@.len() > 0)
                && cl.script is Some {
                1
            } else {
                0
            };
            if lead + cl.files@.len() == 0 {
                files.len() == 1 && files[0]@ == seq!['-']
            } else {
                &&& files.len() == lead + cl.files@.len()
                &&& lead == 1 ==> files[0]@ == cl.script.unwrap()@
                &&& forall|i: int| 0 <= i < cl.files@.len() ==> #[trigger] files[lead + i]@ == cl.files@[i]@
            }
        }),
{
    let lead: int = if (cl.expressions@.len() > 0 || cl.script_files@.len() > 0)
        && cl.script is Some {
        1
    } else {
        0
    };
    assert(string_views(files).len() == files.len());
    if lead + cl.files@.len() == 0 {
        assert(string_views(files)[0] == files[0]@);
    } else {
        assert forall|i: int| 0 <= i < cl.files@.len() implies #[trigger] files[lead + i]@
            == cl.files@[i]@ by {
            assert(string_views(files)[lead + i] == files[lead + i]@);
            assert(string_views(cl.files@)[i] == cl.files@[i]@);
        }
        if lead == 1 {
            assert(string_views(files)[0] == files[0]@);
        }
    }
}

/// Inserts `x` into `v` as `insert_by_index` describes.
fn insert_by_index_exec<T>(v: &mut Vec<(usize, T)>, x: (usize, T))
    ensures
        final(v)@ == insert_by_index(old(v)@, x),
{
    let mut p = v.len();
    while p > 0
        invariant
            p <= v.len(),
            forall|k: int| p <= k < v.len() ==> v@[k].0 > x.0,
        ensures
            p <= v.len(),
            p == 0 || v@[p - 1].0 <= x.0,
            forall|k: int| p <= k < v.len() ==> v@[k].0 > x.0,
        decreases p,
    {
        if v[p - 1].0 <= x.0 {
            break;
        }
        p = p - 1;
    }
    proof {
        lemma_insert_by_index_at(v@, x, p as int);
    }
    v.insert(p, x);
}

/// The values of `v`, in order.
fn values_in_order<T>(v: Vec<(usize, T)>) -> (r: Vec<T>)
    ensures
        r@ == v@.map_values(|p: (usize, T)| p.1),
{
    let ghost orig = v@;
    let mut r: Vec<T> = Vec::new();
    for item in it: v.into_iter()
        invariant
            it.seq() == orig,
            r.len() == it.index(),
            forall|i: int| 0 <= i < r.len() ==> #[trigger] r@[i] == orig[i].1,
    {
        r.push(item.1);
    }
    assert(r@ =~= orig.map_values(|p: (usize, T)| p.1));
    r
}

/// Collects the scripts and the input files of the command line, each in the
/// order given.
///
/// With `-e` or `-f`, every `-e SCRIPT` and `-f SCRIPT_FILE` is a script,
/// ordered by its position on the command line, and the first positional
/// argument is an input file; otherwise the first positional argument is the
/// one script, and without it the command line is refused with
/// `MissingScript`. Without any input file, the input is standard input, `-`.
pub fn get_scripts_files(cl: &CommandLine) -> (r: Result<(Vec<ScriptValue>, Vec<String>), SedError>)
    ensures
        r matches Ok((scripts, files)) ==> {
            &&& uses_script_options(*cl) || cl.script is Some
            &&& scripts@ == expected_scripts(*cl)
            &&& string_views(files@) == expected_files(*cl)
        },
        r matches Err(e) ==> {
            &&& e == SedError::MissingScript
            &&& !uses_script_options(*cl)
            &&& cl.script is None
        },
        r is Err <==> !uses_script_options(*cl) && cl.script is None,
{
    let through_options = cl.expressions.len() > 0 || cl.script_files.len() > 0;
    let mut files: Vec<String> = Vec::new();
    let scripts: Vec<ScriptValue>;
    if through_options {
        // The first positional argument names an input file.
        if let Some(val) = &cl.script {
            files.push(val.clone());
        }
        let ghost exprs = cl.expressions@.map_values(
            |e: (usize, String)| (e.0, ScriptValue::StringVal(e.1)),
        );
        let ghost paths = cl.script_files@.map_values(
            |f: (usize, String)| (f.0, ScriptValue::PathVal(f.1)),
        );
        let mut indexed: Vec<(usize, ScriptValue)> = Vec::new();
        let n = cl.expressions.len();
        for i in 0..n
            invariant
                n == cl.expressions.len(),
                exprs == cl.expressions@.map_values(
                    |e: (usize, String)| (e.0, ScriptValue::StringVal(e.1)),
                ),
                indexed@ == sort_by_index(exprs.take(i as int)),
        {
            let (idx, val) = &cl.expressions[i];
            let x = (*idx, ScriptValue::StringVal(val.clone()));
            assert(exprs.take(i + 1).drop_last() =~= exprs.take(i as int));
            assert(exprs.take(i + 1).last() == x);
            insert_by_index_exec(&mut indexed, x);
        }
        assert(exprs.take(n as int) =~= exprs);
        let m = cl.script_files.len();
        for j in 0..m
            invariant
                m == cl.script_files.len(),
                paths == cl.script_files@.map_values(
                    |f: (usize, String)| (f.0, ScriptValue::PathVal(f.1)),
                ),
                indexed@ == sort_by_index(exprs + paths.take(j as int)),
        {
            let (idx, val) = &cl.script_files[j];
            let x = (*idx, ScriptValue::PathVal(val.clone()));
            assert((exprs + paths.take(j + 1)).drop_last() =~= exprs + paths.take(j as int));
            assert((exprs + paths.take(j + 1)).last() == x);
            insert_by_index_exec(&mut indexed, x);
        }
        assert(paths.take(m as int) =~= paths);
        assert(exprs + paths == script_sources(*cl));
        scripts = values_in_order(indexed);
    } else {
        match &cl.script {
            Some(val) => {
                let mut s: Vec<ScriptValue> = Vec::new();
                s.push(ScriptValue::StringVal(val.clone()));
                scripts = s;
            },
            None => {
                return Err(SedError::MissingScript);
            },
        }
    }
    let ghost leading = string_views(files@);
    let k = cl.files.len();
    for i in 0..k
        invariant
            k == cl.files.len(),
            string_views(files@) == leading + string_views(cl.files@.take(i as int)),
    {
        let ghost before = files@;
        let c = cl.files[i].clone();
        files.push(c);
        assert(cl.files@.take(i + 1) =~= cl.files@.take(i as int).push(cl.files@[i as int]));
        assert(string_views(files@) =~= string_views(before).push(c@));
        assert(string_views(cl.files@.take(i + 1)) =~= string_views(cl.files@.take(i as int)).push(c@));
        assert(string_views(files@) =~= leading + string_views(cl.files@.take(i + 1)));
    }
    assert(cl.files@.take(k as int) =~= cl.files@);
    if files.len() == 0 {
        let dash = String::from_str("-");
        proof {
            reveal_strlit("-");
        }
        assert(dash@ == seq!['-']);
        files.push(dash);
        assert(string_views(files@) =~= seq![seq!['-']]);
    }
    Ok((scripts, files))
}

} // verus!
