//! Lexical normalization of repository paths relative to a workspace root.

use vstd::prelude::*;

use crate::text::{control, is_control_char, push_char};

verus! {

pub open spec fn dot() -> Seq<char> {
    seq!['.']
}

pub open spec fn dot_dot() -> Seq<char> {
    seq!['.', '.']
}

/// Applies one path component to the stack of kept components; `None` when `..` would
/// climb above the root.
pub open spec fn path_step(stack: Seq<Seq<char>>, component: Seq<char>) -> Option<Seq<Seq<char>>> {
    if component.len() == 0 || component == dot() {
        Some(stack)
    } else if component == dot_dot() {
        if stack.len() == 0 {
            None
        } else {
            Some(stack.drop_last())
        }
    } else {
        Some(stack.push(component))
    }
}

/// Scans `s` from the left: the kept components so far and the component being read.
pub open spec fn path_scan(s: Seq<char>) -> Option<(Seq<Seq<char>>, Seq<char>)>
    decreases s.len(),
{
    if s.len() == 0 {
        Some((Seq::empty(), Seq::empty()))
    } else {
        match path_scan(s.drop_last()) {
            None => None,
            Some((stack, current)) => if s.last() == '/' {
                match path_step(stack, current) {
                    None => None,
                    Some(next) => Some((next, Seq::empty())),
                }
            } else {
                Some((stack, current.push(s.last())))
            },
        }
    }
}

/// The components that remain of `s` once `.`, empty components and `..` are resolved.
pub open spec fn path_components(s: Seq<char>) -> Option<Seq<Seq<char>>> {
    match path_scan(s) {
        None => None,
        Some((stack, current)) => path_step(stack, current),
    }
}

/// The components joined with `/`.
pub open spec fn join_slash(parts: Seq<Seq<char>>) -> Seq<char>
    decreases parts.len(),
{
    if parts.len() == 0 {
        Seq::empty()
    } else if parts.len() == 1 {
        parts[0]
    } else {
        join_slash(parts.drop_last()) + seq!['/'] + parts.last()
    }
}

/// Whether the path looks like a Windows drive path: its second byte is `:`.
pub open spec fn has_drive_colon(s: Seq<char>) -> bool {
    s.len() >= 2 && (s[0] as u32) < 0x80 && s[1] == ':'
}

/// The normalized form of a repository path, or the reason it is refused.
pub open spec fn normalized_repository_path(s: Seq<char>) -> Result<Seq<char>, Seq<char>> {
    if s.len() == 0 {
        Err("repository path must not be empty"@)
    } else if s.contains('\\') {
        Err("repository path must use forward slashes"@)
    } else if s[0] == '/' || has_drive_colon(s) {
        Err("repository path must be relative to the workspace root"@)
    } else if exists|i: int| 0 <= i < s.len() && is_control_char(#[trigger] s[i]) {
        Err("repository path must not contain control characters"@)
    } else {
        match path_components(s) {
            None => Err("repository path must not escape the workspace root"@),
            Some(parts) => Ok(
                if parts.len() == 0 {
                    dot()
                } else {
                    join_slash(parts)
                },
            ),
        }
    }
}

proof fn lemma_scan_failure_persists(s: Seq<char>, k: int)
    requires
        0 <= k <= s.len(),
        path_scan(s.subrange(0, k)) is None,
    ensures
        path_scan(s) is None,
    decreases s.len() - k,
{
    if k < s.len() {
        let t = s.subrange(0, k + 1);
        assert(t.drop_last() =~= s.subrange(0, k));
        lemma_scan_failure_persists(s, k + 1);
    } else {
        assert(s.subrange(0, k) =~= s);
    }
}

pub open spec fn stack_view(stack: Seq<Vec<char>>) -> Seq<Seq<char>> {
    stack.map_values(|v: Vec<char>| v@)
}

/// Applies `path_step` to an executable stack; `false` when the path escapes the root.
fn apply_step(stack: &mut Vec<Vec<char>>, current: Vec<char>) -> (ok: bool)
    ensures
        ok == path_step(stack_view(old(stack)@), current@) is Some,
        ok ==> Some(stack_view(final(stack)@)) == path_step(stack_view(old(stack)@), current@),
{
    let n = current.len();
    if n == 0 || (n == 1 && current[0] == '.') {
        proof {
            if n == 1 {
                assert(current@ =~= dot());
            }
        }
        return true;
    }
    if n == 2 && current[0] == '.' && current[1] == '.' {
        assert(current@ =~= dot_dot());
        if stack.len() == 0 {
            return false;
        }
        stack.pop();
        assert(stack_view(stack@) =~= stack_view(old(stack)@).drop_last());
        return true;
    }
    assert(current@ != dot()) by {
        if n == 1 {
            assert(current@[0] != dot()[0]);
        }
    }
    assert(current@ != dot_dot()) by {
        if n == 2 {
            assert(current@[0] != '.' || current@[1] != '.');
        }
    }
    stack.push(current);
    assert(stack_view(stack@) =~= stack_view(old(stack)@).push(current@));
    true
}

/// Normalizes a repository path lexically, without touching the disk.
pub fn normalize_repository_path(path: &str) -> (r: Result<String, &'static str>)
    ensures
        match r {
            Ok(p) => normalized_repository_path(path@) == Ok::<Seq<char>, Seq<char>>(p@),
            Err(m) => normalized_repository_path(path@) == Err::<Seq<char>, Seq<char>>(m@),
        },
{
    let n = path.unicode_len();
    if n == 0 {
        return Err("repository path must not be empty");
    }
    let mut i: usize = 0;
    while i < n
        invariant
            n == path@.len(),
            i <= n,
            forall|k: int| 0 <= k < i ==> path@[k] != '\\',
        decreases n - i,
    {
        if path.get_char(i) == '\\' {
            assert(path@.contains('\\'));
            return Err("repository path must use forward slashes");
        }
        i = i + 1;
    }
    assert(!path@.contains('\\'));
    let first = path.get_char(0);
    if first == '/' || (n >= 2 && (first as u32) < 0x80 && path.get_char(1) == ':') {
        return Err("repository path must be relative to the workspace root");
    }
    let mut i: usize = 0;
    while i < n
        invariant
            n == path@.len(),
            i <= n,
            n > 0,
            !path@.contains('\\'),
            !(path@[0] == '/' || has_drive_colon(path@)),
            forall|k: int| 0 <= k < i ==> !is_control_char(#[trigger] path@[k]),
        decreases n - i,
    {
        if control(path.get_char(i)) {
            assert(is_control_char(path@[i as int]));
            return Err("repository path must not contain control characters");
        }
        i = i + 1;
    }
    let mut stack: Vec<Vec<char>> = Vec::new();
    let mut current: Vec<char> = Vec::new();
    let mut i: usize = 0;
    assert(path@.subrange(0, 0) =~= Seq::<char>::empty());
    assert(stack_view(stack@) =~= Seq::<Seq<char>>::empty());
    while i < n
        invariant
            n == path@.len(),
            i <= n,
            n > 0,
            !path@.contains('\\'),
            !(path@[0] == '/' || has_drive_colon(path@)),
            forall|k: int| 0 <= k < n ==> !is_control_char(#[trigger] path@[k]),
            path_scan(path@.subrange(0, i as int)) == Some((stack_view(stack@), current@)),
        decreases n - i,
    {
        let c = path.get_char(i);
        let ghost prefix = path@.subrange(0, i + 1);
        assert(prefix.drop_last() =~= path@.subrange(0, i as int));
        assert(prefix.last() == c);
        if c == '/' {
            let finished = current;
            current = Vec::new();
            if !apply_step(&mut stack, finished) {
                proof {
                    lemma_scan_failure_persists(path@, i + 1);
                }
                return Err("repository path must not escape the workspace root");
            }
            assert(current@ =~= Seq::<char>::empty());
        } else {
            current.push(c);
        }
        i = i + 1;
    }
    assert(path@.subrange(0, n as int) =~= path@);
    if !apply_step(&mut stack, current) {
        return Err("repository path must not escape the workspace root");
    }
    let count = stack.len();
    if count == 0 {
        let mut r = String::new();
        push_char(&mut r, '.');
        assert(r@ =~= dot());
        return Ok(r);
    }
    let mut r = String::new();
    let mut k: usize = 0;
    while k < count
        invariant
            count == stack.len(),
            k <= count,
            k == 0 ==> r@.len() == 0,
            k > 0 ==> r@ == join_slash(stack_view(stack@).subrange(0, k as int)),
        decreases count - k,
    {
        let ghost before = r@;
        if k > 0 {
            push_char(&mut r, '/');
        }
        let part = &stack[k];
        let m = part.len();
        let mut q: usize = 0;
        let ghost base = r@;
        while q < m
            invariant
                m == part.len(),
                q <= m,
                r@ == base + part@.subrange(0, q as int),
            decreases m - q,
        {
            push_char(&mut r, part[q]);
            q = q + 1;
            assert(r@ =~= base + part@.subrange(0, q as int));
        }
        proof {
            let parts = stack_view(stack@).subrange(0, k + 1);
            assert(part@.subrange(0, m as int) =~= part@);
            assert(parts.last() == part@);
            if k == 0 {
                assert(r@ =~= join_slash(parts));
            } else {
                assert(parts.drop_last() =~= stack_view(stack@).subrange(0, k as int));
                assert(r@ =~= join_slash(parts));
            }
        }
        k = k + 1;
    }
    assert(stack_view(stack@).subrange(0, count as int) =~= stack_view(stack@));
    Ok(r)
}


/// A component that a normalized path keeps: not empty, not `.` or `..`, without `/`.
pub open spec fn kept_component(c: Seq<char>) -> bool {
    c.len() > 0 && c != dot() && c != dot_dot() && !c.contains('/')
}

/// Whether every character of `c` occurs in `s`.
pub open spec fn drawn_from(c: Seq<char>, s: Seq<char>) -> bool {
    forall|k: int| 0 <= k < c.len() ==> s.contains(#[trigger] c[k])
}

proof fn lemma_scan_shape(s: Seq<char>)
    ensures
        path_scan(s) matches Some(r) ==> {
            &&& forall|i: int|
                0 <= i < r.0.len() ==> kept_component(#[trigger] r.0[i]) && drawn_from(r.0[i], s)
            &&& !r.1.contains('/')
            &&& drawn_from(r.1, s)
        },
    decreases s.len(),
{
    if s.len() > 0 {
        let t = s.drop_last();
        lemma_scan_shape(t);
        assert forall|ch: char| t.contains(ch) implies s.contains(ch) by {
            let k = choose|k: int| 0 <= k < t.len() && t[k] == ch;
            assert(s[k] == ch);
        }
        assert(s.contains(s.last())) by {
            assert(s[s.len() - 1] == s.last());
        }
        match path_scan(t) {
            None => {},
            Some((stack, current)) => {
                if s.last() == '/' {
                    match path_step(stack, current) {
                        None => {},
                        Some(next) => {
                            assert(!Seq::<char>::empty().contains('/'));
                            assert forall|i: int| 0 <= i < next.len() implies kept_component(
                                #[trigger] next[i],
                            ) && drawn_from(next[i], s) by {
                                if i < stack.len() {
                                    assert(next[i] == stack[i]);
                                } else {
                                    assert(next[i] == current);
                                }
                            }
                        },
                    }
                } else {
                    let grown = current.push(s.last());
                    assert forall|ch: char| grown.contains(ch) implies ch != '/' by {
                        let k = choose|k: int| 0 <= k < grown.len() && grown[k] == ch;
                        if k < current.len() {
                            assert(current[k] == ch);
                        }
                    }
                    assert(drawn_from(grown, s));
                }
            },
        }
    }
}

proof fn lemma_scan_append(x: Seq<char>, y: Seq<char>)
    requires
        path_scan(x) is Some,
        !y.contains('/'),
    ensures
        path_scan(x + y) == Some((path_scan(x)->Some_0.0, path_scan(x)->Some_0.1 + y)),
    decreases y.len(),
{
    if y.len() == 0 {
        assert(x + y =~= x);
        assert(path_scan(x)->Some_0.1 + y =~= path_scan(x)->Some_0.1);
    } else {
        let z = y.drop_last();
        assert(!z.contains('/')) by {
            assert forall|k: int| 0 <= k < z.len() implies z[k] != '/' by {
                assert(z[k] == y[k]);
            }
        }
        lemma_scan_append(x, z);
        assert((x + y).drop_last() =~= x + z);
        assert((x + y).last() == y.last());
        assert(y.last() != '/') by {
            assert(y[y.len() - 1] == y.last());
        }
        assert((path_scan(x)->Some_0.1 + z).push(y.last()) =~= path_scan(x)->Some_0.1 + y);
    }
}

proof fn lemma_scan_join(parts: Seq<Seq<char>>)
    requires
        parts.len() >= 1,
        forall|i: int| 0 <= i < parts.len() ==> kept_component(#[trigger] parts[i]),
    ensures
        path_scan(join_slash(parts)) == Some((parts.drop_last(), parts.last())),
    decreases parts.len(),
{
    if parts.len() == 1 {
        lemma_scan_append(Seq::empty(), parts[0]);
        assert(Seq::<char>::empty() + parts[0] =~= parts[0]);
        assert(Seq::<char>::empty() + parts[0] =~= parts.last());
        assert(parts.drop_last() =~= Seq::<Seq<char>>::empty());
    } else {
        let front = parts.drop_last();
        lemma_scan_join(front);
        let j = join_slash(front);
        let slashed = j + seq!['/'];
        assert(slashed.drop_last() =~= j);
        assert(front.drop_last().push(front.last()) =~= front);
        assert(kept_component(front.last()));
        assert(path_scan(slashed) == Some((front, Seq::<char>::empty())));
        assert(kept_component(parts.last()));
        lemma_scan_append(slashed, parts.last());
        assert(Seq::<char>::empty() + parts.last() =~= parts.last());
    }
}

proof fn lemma_join_shape(parts: Seq<Seq<char>>)
    requires
        parts.len() >= 1,
    ensures
        join_slash(parts).len() >= parts[0].len(),
        forall|k: int| 0 <= k < parts[0].len() ==> join_slash(parts)[k] == parts[0][k],
        forall|k: int|
            0 <= k < join_slash(parts).len() ==> #[trigger] join_slash(parts)[k] == '/' || exists|
                i: int,
                m: int,
            | 0 <= i < parts.len() && 0 <= m < parts[i].len() && join_slash(parts)[k] == parts[i][m],
    decreases parts.len(),
{
    if parts.len() > 1 {
        let front = parts.drop_last();
        lemma_join_shape(front);
        let j = join_slash(front);
        let all = join_slash(parts);
        assert(all == j + seq!['/'] + parts.last());
        assert forall|k: int| 0 <= k < all.len() implies #[trigger] all[k] == '/' || exists|
            i: int,
            m: int,
        | 0 <= i < parts.len() && 0 <= m < parts[i].len() && all[k] == parts[i][m] by {
            if k < j.len() {
                assert(all[k] == j[k]);
                if j[k] != '/' {
                    let (i, m) = choose|i: int, m: int|
                        0 <= i < front.len() && 0 <= m < front[i].len() && j[k] == front[i][m];
                    assert(front[i] == parts[i]);
                }
            } else if k > j.len() {
                let m = k - j.len() - 1;
                assert(all[k] == parts.last()[m]);
                assert(parts[parts.len() - 1] == parts.last());
            }
        }
        assert(front[0] == parts[0]);
    }
}

/// A normalized repository path is `.` or its components joined by `/`, each component kept
/// (not empty, not `.` or `..`); and unless it starts like a drive path (`x:`), normalizing
/// it again gives it back.
pub proof fn lemma_normalized_path_is_normal(s: Seq<char>)
    ensures
        normalized_repository_path(s) matches Ok(n) ==> {
            &&& (n == dot() || exists|parts: Seq<Seq<char>>|
                parts.len() > 0 && n == join_slash(parts) && forall|i: int|
                    0 <= i < parts.len() ==> kept_component(#[trigger] parts[i]))
            &&& !has_drive_colon(n) ==> normalized_repository_path(n) == Ok::<Seq<char>, Seq<char>>(n)
        },
{
    if let Ok(n) = normalized_repository_path(s) {
        let parts = path_components(s)->Some_0;
        lemma_scan_shape(s);
        let (stack, current) = path_scan(s)->Some_0;
        assert forall|i: int| 0 <= i < parts.len() implies kept_component(#[trigger] parts[i])
            && drawn_from(parts[i], s) by {
            if i < stack.len() {
                assert(parts[i] == stack[i]);
            } else {
                assert(parts[i] == current);
            }
        }
        if parts.len() == 0 {
            assert(n == dot());
            assert(!dot().contains('\\')) by {
                assert(dot()[0] == '.');
            }
            assert(!(exists|i: int| 0 <= i < dot().len() && is_control_char(#[trigger] dot()[i])));
            assert(dot() =~= seq!['.']);
            assert(path_scan(dot()) == Some((Seq::<Seq<char>>::empty(), dot()))) by {
                assert(dot().drop_last() =~= Seq::<char>::empty());
                assert(Seq::<char>::empty().push('.') =~= dot());
            }
        } else {
            assert(n == join_slash(parts));
            lemma_scan_join(parts);
            assert(parts.drop_last().push(parts.last()) =~= parts);
            assert(path_components(n) == Some(parts));
            lemma_join_shape(parts);
            assert(n[0] == parts[0][0]);
            assert(!parts[0].contains('/'));
            assert(n[0] != '/');
            assert forall|k: int| 0 <= k < n.len() implies n[k] != '\\' && !is_control_char(
                #[trigger] n[k],
            ) by {
                if n[k] != '/' {
                    let (i, m) = choose|i: int, m: int|
                        0 <= i < parts.len() && 0 <= m < parts[i].len() && n[k] == parts[i][m];
                    assert(drawn_from(parts[i], s));
                    assert(s.contains(parts[i][m]));
                    let q = choose|q: int| 0 <= q < s.len() && s[q] == parts[i][m];
                    assert(!is_control_char(s[q]));
                    assert(s[q] != '\\');
                }
            }
            assert(!n.contains('\\'));
        }
    }
}

} // verus!
