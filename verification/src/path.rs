//! Absolute paths as byte strings: resolving a path against a working
//! directory the way the shell and the system calls do.
//!
//! A path is a sequence of components separated by `/`. Empty components
//! and `.` are skipped, `..` drops the last component (staying at the
//! root), and a path starting with `/` starts over from the root. The
//! result is written as `/` followed by the components joined by `/`.

use vstd::prelude::*;

verus! {

/// The component `c` folded into the stack `stack`.
pub open spec fn push_component(stack: Seq<Seq<u8>>, c: Seq<u8>) -> Seq<Seq<u8>> {
    if c.len() == 0 || c == seq![0x2eu8] {
        stack
    } else if c == seq![0x2eu8, 0x2eu8] {
        if stack.len() > 0 { stack.drop_last() } else { stack }
    } else {
        stack.push(c)
    }
}

/// Folds bytes `i..` of `p` into the stack, `cur` being the component read
/// so far.
pub open spec fn fold_path(stack: Seq<Seq<u8>>, cur: Seq<u8>, p: Seq<u8>, i: int) -> Seq<Seq<u8>>
    decreases p.len() - i,
{
    if i < 0 || i >= p.len() {
        push_component(stack, cur)
    } else if p[i] == 0x2fu8 {
        fold_path(push_component(stack, cur), Seq::empty(), p, i + 1)
    } else {
        fold_path(stack, cur.push(p[i]), p, i + 1)
    }
}

/// The components of `p` resolved against the components `base`: from the
/// root when `p` starts with `/`.
pub open spec fn resolve(base: Seq<Seq<u8>>, p: Seq<u8>) -> Seq<Seq<u8>> {
    if p.len() > 0 && p[0] == 0x2fu8 {
        fold_path(Seq::empty(), Seq::empty(), p, 0)
    } else {
        fold_path(base, Seq::empty(), p, 0)
    }
}

/// The text of a stack of components: `/` followed by the components
/// joined by `/`.
pub open spec fn render(stack: Seq<Seq<u8>>) -> Seq<u8>
    decreases stack.len(),
{
    if stack.len() == 0 {
        seq![0x2fu8]
    } else if stack.len() == 1 {
        seq![0x2fu8] + stack[0]
    } else {
        render(stack.drop_last()) + seq![0x2fu8] + stack.last()
    }
}

/// The components of an absolute path.
pub open spec fn parse_path(p: Seq<u8>) -> Seq<Seq<u8>> {
    fold_path(Seq::empty(), Seq::empty(), p, 0)
}

fn is_dot(c: &Vec<u8>) -> (r: bool)
    ensures
        r == (c@ == seq![0x2eu8]),
{
    let r = c.len() == 1 && c[0] == 0x2eu8;
    proof {
        if r {
            assert(c@ =~= seq![0x2eu8]);
        }
    }
    r
}

fn is_dot_dot(c: &Vec<u8>) -> (r: bool)
    ensures
        r == (c@ == seq![0x2eu8, 0x2eu8]),
{
    let r = c.len() == 2 && c[0] == 0x2eu8 && c[1] == 0x2eu8;
    proof {
        if r {
            assert(c@ =~= seq![0x2eu8, 0x2eu8]);
        }
    }
    r
}

/// Folds one component into the stack.
fn push_component_exec(stack: &mut Vec<Vec<u8>>, c: Vec<u8>)
    ensures
        final(stack)@.map_values(|v: Vec<u8>| v@) == push_component(
            old(stack)@.map_values(|v: Vec<u8>| v@),
            c@,
        ),
{
    if c.len() == 0 || is_dot(&c) {
    } else if is_dot_dot(&c) {
        if stack.len() > 0 {
            stack.pop();
            proof {
                assert(stack@.map_values(|v: Vec<u8>| v@) =~= old(stack)@.map_values(
                    |v: Vec<u8>| v@,
                ).drop_last());
            }
        }
    } else {
        stack.push(c);
        proof {
            assert(stack@.map_values(|v: Vec<u8>| v@) =~= old(stack)@.map_values(|v: Vec<u8>| v@).push(c@));
        }
    }
}

/// Folds the bytes of `p` into the stack of components.
fn fold_exec(stack: &mut Vec<Vec<u8>>, p: &[u8])
    ensures
        final(stack)@.map_values(|v: Vec<u8>| v@) == fold_path(
            old(stack)@.map_values(|v: Vec<u8>| v@),
            Seq::empty(),
            p@,
            0,
        ),
{
    let n = p.len();
    let mut cur: Vec<u8> = Vec::new();
    let mut i: usize = 0;
    while i < n
        invariant
            n == p@.len(),
            i <= n,
            fold_path(stack@.map_values(|v: Vec<u8>| v@), cur@, p@, i as int) == fold_path(
                old(stack)@.map_values(|v: Vec<u8>| v@),
                Seq::empty(),
                p@,
                0,
            ),
        decreases n - i,
    {
        if p[i] == 0x2fu8 {
            let c = cur;
            push_component_exec(stack, c);
            cur = Vec::new();
        } else {
            cur.push(p[i]);
        }
        i = i + 1;
    }
    push_component_exec(stack, cur);
}

/// Writes a stack of components as an absolute path.
fn render_exec(stack: &Vec<Vec<u8>>) -> (r: Vec<u8>)
    ensures
        r@ == render(stack@.map_values(|v: Vec<u8>| v@)),
{
    let ghost s = stack@.map_values(|v: Vec<u8>| v@);
    let mut out: Vec<u8> = Vec::new();
    out.push(0x2fu8);
    let n = stack.len();
    if n == 0 {
        proof {
            assert(out@ =~= seq![0x2fu8]);
        }
        return out;
    }
    let mut k: usize = 0;
    while k < n
        invariant
            n == s.len(),
            n > 0,
            s == stack@.map_values(|v: Vec<u8>| v@),
            k <= n,
            k == 0 ==> out@ == seq![0x2fu8],
            k > 0 ==> out@ == render(s.take(k as int)),
        decreases n - k,
    {
        let c = &stack[k];
        if k > 0 {
            out.push(0x2fu8);
        }
        let mut j: usize = 0;
        let ghost before = out@;
        while j < c.len()
            invariant
                j <= c@.len(),
                out@ == before + c@.take(j as int),
            decreases c@.len() - j,
        {
            out.push(c[j]);
            j = j + 1;
            proof {
                assert(out@ =~= before + c@.take(j as int));
            }
        }
        proof {
            assert(c@.take(c@.len() as int) =~= c@);
            let t = s.take(k + 1);
            assert(t.drop_last() =~= s.take(k as int));
            assert(t.last() == c@);
            if k == 0 {
                assert(out@ =~= seq![0x2fu8] + t[0]);
            } else {
                assert(out@ =~= render(t.drop_last()) + seq![0x2fu8] + t.last());
            }
        }
        k = k + 1;
    }
    proof {
        assert(s.take(n as int) =~= s);
    }
    out
}

/// Resolves `path` against the absolute working directory `cwd` and
/// returns the resulting absolute path.
pub fn resolve_path(cwd: &[u8], path: &[u8]) -> (r: Vec<u8>)
    ensures
        r@ == render(resolve(parse_path(cwd@), path@)),
{
    let mut stack: Vec<Vec<u8>> = Vec::new();
    proof {
        assert(stack@.map_values(|v: Vec<u8>| v@) =~= Seq::<Seq<u8>>::empty());
    }
    if !(path.len() > 0 && path[0] == 0x2fu8) {
        fold_exec(&mut stack, cwd);
    }
    proof {
        if path@.len() > 0 && path@[0] == 0x2fu8 {
            assert(stack@.map_values(|v: Vec<u8>| v@) =~= Seq::<Seq<u8>>::empty());
        }
    }
    let ghost mid = stack@.map_values(|v: Vec<u8>| v@);
    fold_exec(&mut stack, path);
    render_exec(&stack)
}

/// `arg` appended to the directory path `dir`: an absolute `arg` stands
/// for itself; a relative one follows `dir`, with a `/` between them
/// unless `dir` is empty or already ends with one. Nothing is resolved.
pub open spec fn join_spec(dir: Seq<u8>, arg: Seq<u8>) -> Seq<u8> {
    if arg.len() > 0 && arg[0] == 0x2fu8 {
        arg
    } else if dir.len() == 0 || dir.last() == 0x2fu8 {
        dir + arg
    } else {
        dir + seq![0x2fu8] + arg
    }
}

/// Appends `arg` to the directory path `dir` (see [`join_spec`]).
pub fn join_path(dir: &[u8], arg: &[u8]) -> (r: Vec<u8>)
    ensures
        r@ == join_spec(dir@, arg@),
{
    let mut out: Vec<u8> = Vec::new();
    if !(arg.len() > 0 && arg[0] == 0x2fu8) {
        let mut i: usize = 0;
        while i < dir.len()
            invariant
                i <= dir@.len(),
                out@ == dir@.subrange(0, i as int),
            decreases dir@.len() - i,
        {
            out.push(dir[i]);
            i = i + 1;
            assert(out@ =~= dir@.subrange(0, i as int));
        }
        assert(out@ =~= dir@);
        if dir.len() > 0 && dir[dir.len() - 1] != 0x2fu8 {
            out.push(0x2fu8);
        }
    }
    let ghost head = out@;
    let mut j: usize = 0;
    while j < arg.len()
        invariant
            j <= arg@.len(),
            out@ == head + arg@.subrange(0, j as int),
        decreases arg@.len() - j,
    {
        out.push(arg[j]);
        j = j + 1;
        assert(out@ =~= head + arg@.subrange(0, j as int));
    }
    assert(arg@.subrange(0, arg@.len() as int) =~= arg@);
    proof {
        if arg@.len() > 0 && arg@[0] == 0x2fu8 {
            assert(head =~= Seq::<u8>::empty());
            assert(out@ =~= arg@);
        }
    }
    out
}

/// Normalizes an absolute path: its components resolved from the root.
pub fn normalize(path: &[u8]) -> (r: Vec<u8>)
    ensures
        r@ == render(parse_path(path@)),
{
    let mut stack: Vec<Vec<u8>> = Vec::new();
    proof {
        assert(stack@.map_values(|v: Vec<u8>| v@) =~= Seq::<Seq<u8>>::empty());
    }
    fold_exec(&mut stack, path);
    render_exec(&stack)
}

/// A component as a normalized path holds it: not empty, not `.` or `..`,
/// and without `/`.
pub open spec fn clean(c: Seq<u8>) -> bool {
    &&& c.len() > 0
    &&& c != seq![0x2eu8]
    &&& c != seq![0x2eu8, 0x2eu8]
    &&& forall|k: int| 0 <= k < c.len() ==> #[trigger] c[k] != 0x2fu8
}

/// Every component of `s` is clean.
pub open spec fn all_clean(s: Seq<Seq<u8>>) -> bool {
    forall|i: int| 0 <= i < s.len() ==> clean(#[trigger] s[i])
}

/// `c` holds no `/`.
pub open spec fn no_slash(c: Seq<u8>) -> bool {
    forall|k: int| 0 <= k < c.len() ==> #[trigger] c[k] != 0x2fu8
}

/// Folding keeps the stack clean.
proof fn lemma_fold_clean(stack: Seq<Seq<u8>>, cur: Seq<u8>, p: Seq<u8>, i: int)
    requires
        all_clean(stack),
        no_slash(cur),
    ensures
        all_clean(fold_path(stack, cur, p, i)),
    decreases p.len() - i,
{
    if i < 0 || i >= p.len() {
        lemma_push_clean(stack, cur);
    } else if p[i] == 0x2fu8 {
        lemma_push_clean(stack, cur);
        lemma_fold_clean(push_component(stack, cur), Seq::empty(), p, i + 1);
    } else {
        assert forall|k: int| 0 <= k < cur.push(p[i]).len() implies #[trigger] cur.push(p[i])[k] != 0x2fu8 by {
            if k < cur.len() {
                assert(cur.push(p[i])[k] == cur[k]);
            }
        }
        lemma_fold_clean(stack, cur.push(p[i]), p, i + 1);
    }
}

/// Pushing a component without `/` keeps the stack clean.
proof fn lemma_push_clean(stack: Seq<Seq<u8>>, c: Seq<u8>)
    requires
        all_clean(stack),
        no_slash(c),
    ensures
        all_clean(push_component(stack, c)),
{
    let r = push_component(stack, c);
    if c.len() == 0 || c == seq![0x2eu8] {
    } else if c == seq![0x2eu8, 0x2eu8] {
        if stack.len() > 0 {
            assert forall|i: int| 0 <= i < r.len() implies clean(#[trigger] r[i]) by {
                assert(r[i] == stack[i]);
            }
        }
    } else {
        assert forall|i: int| 0 <= i < r.len() implies clean(#[trigger] r[i]) by {
            if i < stack.len() {
                assert(r[i] == stack[i]);
            }
        }
    }
}

/// Folding the rest of `q`, which holds no `/`, pushes it as one
/// component.
proof fn lemma_fold_tail(stack: Seq<Seq<u8>>, cur: Seq<u8>, q: Seq<u8>, j: int)
    requires
        0 <= j <= q.len(),
        forall|k: int| j <= k < q.len() ==> #[trigger] q[k] != 0x2fu8,
    ensures
        fold_path(stack, cur, q, j) == push_component(stack, cur + q.subrange(j, q.len() as int)),
    decreases q.len() - j,
{
    if j == q.len() {
        assert(cur + q.subrange(j, q.len() as int) =~= cur);
    } else {
        lemma_fold_tail(stack, cur.push(q[j]), q, j + 1);
        assert(cur.push(q[j]) + q.subrange(j + 1, q.len() as int) =~= cur + q.subrange(j, q.len() as int));
    }
}

/// Folding `p`, a `/` and then a component `c` without `/` pushes `c` onto
/// what folding `p` gives.
proof fn lemma_fold_append(stack: Seq<Seq<u8>>, cur: Seq<u8>, p: Seq<u8>, c: Seq<u8>, i: int)
    requires
        0 <= i <= p.len(),
        no_slash(c),
    ensures
        fold_path(stack, cur, p + seq![0x2fu8] + c, i) == push_component(fold_path(stack, cur, p, i), c),
    decreases p.len() - i,
{
    let q = p + seq![0x2fu8] + c;
    if i == p.len() {
        assert(q[i] == 0x2fu8);
        assert forall|k: int| i + 1 <= k < q.len() implies #[trigger] q[k] != 0x2fu8 by {
            assert(q[k] == c[k - i - 1]);
        }
        lemma_fold_tail(push_component(stack, cur), Seq::empty(), q, i + 1);
        assert(Seq::<u8>::empty() + q.subrange(i + 1, q.len() as int) =~= c);
    } else {
        assert(q[i] == p[i]);
        if p[i] == 0x2fu8 {
            lemma_fold_append(push_component(stack, cur), Seq::empty(), p, c, i + 1);
        } else {
            lemma_fold_append(stack, cur.push(p[i]), p, c, i + 1);
        }
    }
}

/// The text of clean components reads back as them.
proof fn lemma_parse_render(s: Seq<Seq<u8>>)
    requires
        all_clean(s),
    ensures
        parse_path(render(s)) == s,
    decreases s.len(),
{
    if s.len() == 0 {
        assert(fold_path(Seq::empty(), Seq::empty(), seq![0x2fu8], 1) == push_component(
            Seq::<Seq<u8>>::empty(),
            Seq::<u8>::empty(),
        ));
    } else if s.len() == 1 {
        let q = seq![0x2fu8] + s[0];
        assert(clean(s[0]));
        assert forall|k: int| 1 <= k < q.len() implies #[trigger] q[k] != 0x2fu8 by {
            assert(q[k] == s[0][k - 1]);
        }
        lemma_fold_tail(Seq::empty(), Seq::empty(), q, 1);
        assert(Seq::<u8>::empty() + q.subrange(1, q.len() as int) =~= s[0]);
        assert(Seq::<Seq<u8>>::empty().push(s[0]) =~= s);
    } else {
        let d = s.drop_last();
        assert forall|i: int| 0 <= i < d.len() implies clean(#[trigger] d[i]) by {
            assert(d[i] == s[i]);
        }
        lemma_parse_render(d);
        assert(clean(s.last()));
        lemma_fold_append(Seq::empty(), Seq::empty(), render(d), s.last(), 0);
        assert(d.push(s.last()) =~= s);
    }
}

/// Normalizing twice is normalizing once: the components of a path read
/// back from their text, and resolving a normalized path from any working
/// directory gives it back.
pub proof fn lemma_normalize_idempotent(p: Seq<u8>, base: Seq<Seq<u8>>)
    ensures
        parse_path(render(parse_path(p))) == parse_path(p),
        render(parse_path(render(parse_path(p)))) == render(parse_path(p)),
        resolve(base, render(parse_path(p))) == parse_path(p),
{
    lemma_fold_clean(Seq::empty(), Seq::empty(), p, 0);
    lemma_parse_render(parse_path(p));
    lemma_render_absolute(parse_path(p));
}

/// The text of a stack starts with `/`.
proof fn lemma_render_absolute(s: Seq<Seq<u8>>)
    ensures
        render(s).len() > 0,
        render(s)[0] == 0x2fu8,
    decreases s.len(),
{
    if s.len() >= 2 {
        lemma_render_absolute(s.drop_last());
    }
}

} // verus!
