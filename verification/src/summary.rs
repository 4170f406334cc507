use vstd::prelude::*;
use vstd::string::StringExecFns;

use crate::text::chars_of;

verus! {

/// The position just after the last `c` among the first `n` characters of `p`; 0 when
/// there is none.
pub open spec fn after_last(p: Seq<char>, n: int, c: char) -> int
    decreases n,
{
    if n <= 0 {
        0
    } else if p[n - 1] == c {
        n
    } else {
        after_last(p, n - 1, c)
    }
}

/// Where the components of a path begin: after a leading root `/`, or after a leading `.`
/// that stands as a component of its own.
pub open spec fn body_start(p: Seq<char>) -> int {
    if p.len() > 0 && p[0] == '/' {
        1
    } else if p.len() > 0 && p[0] == '.' && (p.len() == 1 || p[1] == '/') {
        1
    } else {
        0
    }
}

/// Where the last component of the first `n` characters begins.
pub open spec fn comp_start(p: Seq<char>, bs: int, n: int) -> int {
    let al = after_last(p, n, '/');
    if al > bs {
        al
    } else {
        bs
    }
}

/// The length of the first `n` characters once the empty and `.` components at their end
/// are dropped, each with the separator before it.
pub open spec fn trimmed_len(p: Seq<char>, bs: int, n: int) -> int
    decreases n,
{
    if bs < 0 || n <= bs {
        n
    } else {
        let cs = comp_start(p, bs, n);
        if cs == n || (cs + 1 == n && p[cs] == '.') {
            trimmed_len(p, bs, if cs > bs { cs - 1 } else { cs })
        } else {
            n
        }
    }
}

/// The file name without its last extension; the whole name when its only dot leads it.
pub open spec fn file_stem(name: Seq<char>) -> Seq<char> {
    let j = after_last(name, name.len() as int, '.');
    if j <= 1 {
        name
    } else {
        name.take(j - 1)
    }
}

/// What goes before a file name in the directory `parent`: nothing for an empty parent,
/// else the parent ending in one separator.
pub open spec fn dir_prefix(parent: Seq<char>) -> Seq<char> {
    if parent.len() == 0 {
        parent
    } else if parent.last() == '/' {
        parent
    } else {
        parent.push('/')
    }
}

/// `name` in the directory `parent`.
pub open spec fn join_path(parent: Seq<char>, name: Seq<char>) -> Seq<char> {
    dir_prefix(parent) + name
}

/// The stem of the last component `p[cs..t]`: `results` for `..`, else its file stem.
pub open spec fn comp_stem(p: Seq<char>, cs: int, t: int) -> Seq<char> {
    let comp = p.subrange(cs, t);
    if comp == seq!['.', '.'] {
        "results"@
    } else {
        file_stem(comp)
    }
}

/// Where the summary of the raw CSV at `p` goes, read as `std::path` reads a path: empty
/// and `.` components at the end are dropped. When the last component is a file name, the
/// summary is the file stem followed by `-summary.csv`, in the directory that holds it
/// (the path before that component, with its own trailing empty and `.` components
/// dropped); when it is `..`, the stem is `results`, in that same directory. Without a
/// last component (an empty path, `/`, `.`), the summary is `results-summary.csv`.
pub open spec fn summary_path_spec(p: Seq<char>) -> Seq<char> {
    let bs = body_start(p);
    let t = trimmed_len(p, bs, p.len() as int);
    if t <= bs {
        "results"@ + "-summary.csv"@
    } else {
        let cs = comp_start(p, bs, t);
        let parent = p.take(trimmed_len(p, bs, if cs > bs { cs - 1 } else { cs }));
        join_path(parent, comp_stem(p, cs, t) + "-summary.csv"@)
    }
}

proof fn lemma_after_last(p: Seq<char>, n: int, c: char)
    requires
        0 <= n <= p.len(),
    ensures
        0 <= after_last(p, n, c) <= n,
        after_last(p, n, c) > 0 ==> p[after_last(p, n, c) - 1] == c,
        forall|k: int| after_last(p, n, c) <= k < n ==> p[k] != c,
    decreases n,
{
    if n > 0 && p[n - 1] != c {
        lemma_after_last(p, n - 1, c);
    }
}

/// `after_last` finds the last `c`, so it is determined by the positions of `c`.
proof fn lemma_after_last_is(p: Seq<char>, n: int, c: char, a: int)
    requires
        0 <= a <= n <= p.len(),
        a > 0 ==> p[a - 1] == c,
        forall|k: int| a <= k < n ==> p[k] != c,
    ensures
        after_last(p, n, c) == a,
    decreases n,
{
    if n > a {
        lemma_after_last_is(p, n - 1, c, a);
    }
}

proof fn lemma_trimmed(p: Seq<char>, bs: int, n: int)
    requires
        0 <= bs,
        0 <= n <= p.len(),
    ensures
        n <= bs ==> trimmed_len(p, bs, n) == n,
        n > bs ==> bs <= trimmed_len(p, bs, n) <= n,
    decreases n,
{
    if n > bs {
        let cs = comp_start(p, bs, n);
        lemma_after_last(p, n, '/');
        if cs == n || (cs + 1 == n && p[cs] == '.') {
            lemma_trimmed(p, bs, if cs > bs { cs - 1 } else { cs });
        }
    }
}

/// The summary path is never the raw path itself.
pub proof fn lemma_summary_path_is_new(p: Seq<char>)
    ensures
        summary_path_spec(p) != p,
{
    reveal_strlit("results");
    reveal_strlit("-summary.csv");
    let suffix = "-summary.csv"@;
    let results = "results"@;
    assert(suffix.len() == 12 && suffix[0] == '-' && suffix[11] == 'v');
    assert(forall|k: int| 0 <= k < 12 ==> suffix[k] != '/');
    assert(results.len() == 7 && results[0] == 'r');
    assert(forall|k: int| 0 <= k < 7 ==> results[k] != '/' && results[k] != '.');
    let r = summary_path_spec(p);
    let bs = body_start(p);
    let n = p.len() as int;
    lemma_trimmed(p, bs, n);
    let t = trimmed_len(p, bs, n);
    if r == p {
        // The result ends with "-summary.csv", so the raw path has no trailing component to
        // drop, and its last component is the result's: a stem followed by the suffix.
        assert(n >= 12);
        assert(p[n - 1] == 'v');
        assert(bs <= 1);
        lemma_after_last(p, n, '/');
        assert(comp_start(p, bs, n) < n);
        assert(t == n);
        if t <= bs {
        } else {
            let cs = comp_start(p, bs, t);
            let comp = p.subrange(cs, t);
            lemma_after_last(p, t, '/');
            let stem = comp_stem(p, cs, t);
            let pl = trimmed_len(p, bs, if cs > bs { cs - 1 } else { cs });
            lemma_trimmed(p, bs, if cs > bs { cs - 1 } else { cs });
            let parent = p.take(pl);
            let name = stem + suffix;
            // The part of the result before `name` ends in '/' or is empty.
            let jl = r.len() - name.len();
            assert(jl >= 0);
            assert(r.subrange(jl, r.len() as int) =~= name);
            assert(jl == 0 || r[jl - 1] == '/');
            // No '/' inside `comp`, nor inside `name`.
            assert(forall|k: int| cs <= k < t ==> p[k] != '/');
            let j = after_last(comp, comp.len() as int, '.');
            lemma_after_last(comp, comp.len() as int, '.');
            assert(forall|k: int| 0 <= k < stem.len() ==> stem[k] != '/') by {
                if comp != seq!['.', '.'] {
                    assert forall|k: int| 0 <= k < stem.len() implies stem[k] != '/' by {
                        assert(stem[k] == comp[k]);
                        assert(comp[k] == p[cs + k]);
                    }
                }
            }
            assert(forall|k: int| jl <= k < n ==> p[k] != '/') by {
                assert forall|k: int| jl <= k < n implies p[k] != '/' by {
                    assert(p[k] == name[k - jl]);
                    if k - jl < stem.len() {
                    } else {
                        assert(name[k - jl] == suffix[k - jl - stem.len()]);
                    }
                }
            }
            // So the last component of the raw path starts where `name` starts.
            if jl > 0 {
                lemma_after_last_is(p, n, '/', jl);
            } else {
                lemma_after_last_is(p, n, '/', 0);
                if bs == 1 {
                    assert(p[0] != '/');
                    assert(p[0] == '.');
                    assert(n == 1 || p[1] == '/');
                }
            }
            assert(cs == jl);
            assert(comp =~= name);
            if comp == seq!['.', '.'] {
                assert(comp.len() == 2);
            } else if j <= 1 {
                assert(comp.len() == stem.len() + 12);
            } else {
                assert(comp[j - 1] == '.');
                assert(name[j - 1] == suffix[0]);
            }
        }
    }
}

/// Calls `String::push`, which std documents as appending the character to the end.
#[verifier::external_body]
fn push_char(text: &mut String, c: char)
    ensures
        final(text)@ == old(text)@.push(c),
{
    text.push(c);
}

fn push_chars(out: &mut String, chars: &Vec<char>, lo: usize, hi: usize)
    requires
        lo <= hi <= chars@.len(),
    ensures
        final(out)@ == old(out)@ + chars@.subrange(lo as int, hi as int),
{
    let ghost start = out@;
    for i in lo..hi
        invariant
            lo <= hi <= chars@.len(),
            out@ == start + chars@.subrange(lo as int, i as int),
    {
        push_char(out, chars[i]);
        proof {
            assert(chars@.subrange(lo as int, i + 1) =~= chars@.subrange(lo as int, i as int).push(chars@[i as int]));
        }
    }
}

fn after_last_char(chars: &Vec<char>, n: usize, c: char) -> (r: usize)
    requires
        n <= chars@.len(),
    ensures
        r == after_last(chars@, n as int, c),
{
    let mut m = n;
    while m > 0 && chars[m - 1] != c
        invariant
            m <= n <= chars@.len(),
            after_last(chars@, m as int, c) == after_last(chars@, n as int, c),
        decreases m,
    {
        m = m - 1;
    }
    m
}

fn trim_len(chars: &Vec<char>, bs: usize, n: usize) -> (r: usize)
    requires
        n <= chars@.len(),
    ensures
        r == trimmed_len(chars@, bs as int, n as int),
    decreases n,
{
    if n <= bs {
        return n;
    }
    let al = after_last_char(chars, n, '/');
    proof {
        lemma_after_last(chars@, n as int, '/');
    }
    let cs = if al > bs { al } else { bs };
    if cs == n || (cs + 1 == n && chars[cs] == '.') {
        let next = if cs > bs { cs - 1 } else { cs };
        trim_len(chars, bs, next)
    } else {
        n
    }
}

fn push_parent(out: &mut String, chars: &Vec<char>, pl: usize)
    requires
        pl <= chars@.len(),
    ensures
        final(out)@ == old(out)@ + dir_prefix(chars@.take(pl as int)),
{
    push_chars(out, chars, 0, pl);
    proof {
        assert(chars@.subrange(0, pl as int) =~= chars@.take(pl as int));
    }
    if pl > 0 && chars[pl - 1] != '/' {
        push_char(out, '/');
    }
    proof {
        let parent = chars@.take(pl as int);
        if pl > 0 {
            assert(parent.last() == chars@[pl - 1]);
        }
    }
}

fn push_stem(out: &mut String, chars: &Vec<char>, cs: usize, t: usize)
    requires
        cs <= t <= chars@.len(),
    ensures
        final(out)@ == old(out)@ + comp_stem(chars@, cs as int, t as int),
{
    let ghost p = chars@;
    let ghost comp = p.subrange(cs as int, t as int);
    if t - cs == 2 && chars[cs] == '.' && chars[cs + 1] == '.' {
        proof {
            assert(comp =~= seq!['.', '.']);
        }
        out.append("results");
    } else {
        proof {
            if comp == seq!['.', '.'] {
                assert(comp[0] == p[cs as int] && comp[1] == p[cs + 1]);
            }
        }
        let mut j: usize = t;
        while j > cs && chars[j - 1] != '.'
            invariant
                cs <= j <= t <= chars@.len(),
                chars@ == p,
                comp == p.subrange(cs as int, t as int),
                after_last(comp, j - cs, '.') == after_last(comp, t - cs, '.'),
            decreases j,
        {
            proof {
                assert(comp[j - cs - 1] == p[j - 1]);
            }
            j = j - 1;
        }
        proof {
            if j > cs {
                assert(comp[j - cs - 1] == p[j - 1]);
            }
            assert(after_last(comp, comp.len() as int, '.') == j - cs);
        }
        if j - cs <= 1 {
            push_chars(out, chars, cs, t);
        } else {
            push_chars(out, chars, cs, j - 1);
            proof {
                assert(chars@.subrange(cs as int, j - 1) =~= comp.take(j - cs - 1));
            }
        }
    }
}

/// The path of the summary CSV that goes with the raw CSV at `raw_output`: the raw file's
/// stem and `-summary.csv`, in the raw file's directory (see `summary_path_spec`).
pub fn summary_output_path(raw_output: &str) -> (summary: String)
    ensures
        summary@ == summary_path_spec(raw_output@),
{
    let chars = chars_of(raw_output);
    let ghost p = raw_output@;
    let len = chars.len();
    let bs: usize = if len > 0 && chars[0] == '/' {
        1
    } else if len > 0 && chars[0] == '.' && (len == 1 || chars[1] == '/') {
        1
    } else {
        0
    };
    assert(bs as int == body_start(p));
    let t = trim_len(&chars, bs, len);
    proof {
        lemma_trimmed(p, bs as int, len as int);
    }
    let mut out = String::new();
    if t <= bs {
        out.append("results");
        out.append("-summary.csv");
        return out;
    }
    let al = after_last_char(&chars, t, '/');
    proof {
        lemma_after_last(p, t as int, '/');
    }
    let cs = if al > bs { al } else { bs };
    let p2 = if cs > bs { cs - 1 } else { cs };
    let pl = trim_len(&chars, bs, p2);
    proof {
        lemma_trimmed(p, bs as int, p2 as int);
    }
    push_parent(&mut out, &chars, pl);
    push_stem(&mut out, &chars, cs, t);
    out.append("-summary.csv");
    proof {
        assert(cs as int == comp_start(p, bs as int, t as int));
        assert(out@ =~= join_path(p.take(pl as int), comp_stem(p, cs as int, t as int) + "-summary.csv"@));
    }
    out
}

} // verus!
