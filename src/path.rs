//! Path normalization.
//!
//! A path is read from left to right as a sequence of components separated by
//! `/`. Empty components and `.` are dropped, `..` pops the last kept component
//! (and does nothing when there is none), every other component is pushed. The
//! stack of kept components is the canonical form of the path.
use vstd::prelude::*;
use vstd::string::*;

verus! {

/// A component that survives normalization.
pub open spec fn is_name(n: Seq<char>) -> bool {
    &&& n.len() > 0
    &&& n != seq!['.']
    &&& n != seq!['.', '.']
    &&& !n.contains('/')
}

/// Every component of the stack is a name: the stack denotes a canonical path.
pub open spec fn all_names(st: Seq<Seq<char>>) -> bool {
    forall|i: int| 0 <= i < st.len() ==> is_name(#[trigger] st[i])
}

pub open spec fn is_absolute(s: Seq<char>) -> bool {
    s.len() > 0 && s[0] == '/'
}

/// Finishes the component `cur` on top of the stack `st`.
pub open spec fn flush(st: Seq<Seq<char>>, cur: Seq<char>) -> Seq<Seq<char>> {
    if cur.len() == 0 || cur == seq!['.'] {
        st
    } else if cur == seq!['.', '.'] {
        if st.len() > 0 {
            st.drop_last()
        } else {
            st
        }
    } else {
        st.push(cur)
    }
}

/// Reads `s` starting from `state`: the stack of finished components and the
/// component being read.
pub open spec fn scan(state: (Seq<Seq<char>>, Seq<char>), s: Seq<char>) -> (
    Seq<Seq<char>>,
    Seq<char>,
)
    decreases s.len(),
{
    if s.len() == 0 {
        state
    } else {
        step(scan(state, s.drop_last()), s.last())
    }
}

/// Reads one character: a separator finishes the current component.
pub open spec fn step(state: (Seq<Seq<char>>, Seq<char>), c: char) -> (Seq<Seq<char>>, Seq<char>) {
    if c == '/' {
        (flush(state.0, state.1), Seq::empty())
    } else {
        (state.0, state.1.push(c))
    }
}

/// The stack that `s` leads to from the stack `base`.
pub open spec fn resolve(base: Seq<Seq<char>>, s: Seq<char>) -> Seq<Seq<char>> {
    let (st, cur) = scan((base, Seq::empty()), s);
    flush(st, cur)
}

/// The components of `st` joined by `/`.
pub open spec fn join(st: Seq<Seq<char>>) -> Seq<char>
    decreases st.len(),
{
    if st.len() == 0 {
        Seq::empty()
    } else if st.len() == 1 {
        st[0]
    } else {
        join(st.drop_last()) + seq!['/'] + st.last()
    }
}

/// The absolute path of a stack of components.
pub open spec fn render(st: Seq<Seq<char>>) -> Seq<char> {
    seq!['/'] + join(st)
}

/// The normal form of `s`: absolute inputs stay absolute, relative ones relative.
pub open spec fn normalized(s: Seq<char>) -> Seq<char> {
    if is_absolute(s) {
        render(resolve(Seq::empty(), s))
    } else {
        join(resolve(Seq::empty(), s))
    }
}

/// The inner path that `s` denotes when the working directory is `cwd`.
pub open spec fn inner_of(cwd: Seq<Seq<char>>, s: Seq<char>) -> Seq<Seq<char>> {
    if is_absolute(s) {
        resolve(Seq::empty(), s)
    } else {
        resolve(cwd, s)
    }
}

/// `s` names the root and nothing else: a `/` followed only by separators and `.`.
pub open spec fn is_root_only(s: Seq<char>) -> bool {
    &&& is_absolute(s)
    &&& forall|i: int| 0 <= i < s.len() ==> #[trigger] s[i] == '/' || s[i] == '.'
    &&& forall|i: int|
        0 <= i < s.len() && #[trigger] s[i] == '.' ==> i + 1 == s.len() || s[i + 1] == '/'
}

pub open spec fn names_of(v: Seq<String>) -> Seq<Seq<char>> {
    v.map_values(|x: String| x@)
}


/// Reading `a + b` is reading `a`, then `b`.
pub proof fn lemma_scan_concat(state: (Seq<Seq<char>>, Seq<char>), a: Seq<char>, b: Seq<char>)
    ensures
        scan(state, a + b) == scan(scan(state, a), b),
    decreases b.len(),
{
    if b.len() == 0 {
        assert(a + b =~= a);
    } else {
        assert((a + b).drop_last() =~= a + b.drop_last());
        lemma_scan_concat(state, a, b.drop_last());
    }
}

proof fn lemma_scan_char(state: (Seq<Seq<char>>, Seq<char>), c: char)
    ensures
        scan(state, seq![c]) == step(state, c),
{
    assert(seq![c].drop_last() =~= Seq::<char>::empty());
    assert(seq![c].last() == c);
    assert(scan(state, Seq::<char>::empty()) == state);
}

/// Reading characters other than the separator extends the current component.
proof fn lemma_scan_name(st: Seq<Seq<char>>, cur: Seq<char>, n: Seq<char>)
    requires
        !n.contains('/'),
    ensures
        scan((st, cur), n) == (st, cur + n),
    decreases n.len(),
{
    if n.len() == 0 {
        assert(cur + n =~= cur);
    } else {
        assert(!n.drop_last().contains('/')) by {
            if n.drop_last().contains('/') {
                let i = choose|i: int| 0 <= i < n.drop_last().len() && n.drop_last()[i] == '/';
                assert(n[i] == '/');
            }
        }
        lemma_scan_name(st, cur, n.drop_last());
        assert(n.last() != '/') by {
            assert(n[n.len() - 1] == n.last());
        }
        assert((cur + n.drop_last()).push(n.last()) =~= cur + n);
    }
}

/// Reading a joined stack of names from an empty component pushes all but the
/// last name and leaves the last one current.
proof fn lemma_scan_join(base: Seq<Seq<char>>, st: Seq<Seq<char>>)
    requires
        all_names(st),
        st.len() > 0,
    ensures
        scan((base, Seq::empty()), join(st)) == (base + st.drop_last(), st.last()),
    decreases st.len(),
{
    if st.len() == 1 {
        assert(is_name(st[0]));
        lemma_scan_name(base, Seq::empty(), st[0]);
        assert(Seq::<char>::empty() + st[0] =~= st[0]);
        assert(base + st.drop_last() =~= base);
    } else {
        let prev = st.drop_last();
        assert(all_names(prev)) by {
            assert forall|i: int| 0 <= i < prev.len() implies is_name(#[trigger] prev[i]) by {
                assert(prev[i] == st[i]);
            }
        }
        lemma_scan_join(base, prev);
        assert(is_name(prev.last())) by {
            assert(prev.last() == st[st.len() - 2]);
        }
        assert(is_name(st.last())) by {
            assert(st.last() == st[st.len() - 1]);
        }
        lemma_scan_concat((base, Seq::empty()), join(prev) + seq!['/'], st.last());
        lemma_scan_concat((base, Seq::empty()), join(prev), seq!['/']);
        lemma_scan_char((base + prev.drop_last(), prev.last()), '/');
        let mid = (base + prev.drop_last()).push(prev.last());
        assert(mid =~= base + prev);
        lemma_scan_name(mid, Seq::empty(), st.last());
        assert(Seq::<char>::empty() + st.last() =~= st.last());
    }
}

/// Resolving a joined stack of names pushes exactly those names.
pub proof fn lemma_resolve_join(base: Seq<Seq<char>>, st: Seq<Seq<char>>)
    requires
        all_names(st),
    ensures
        resolve(base, join(st)) == base + st,
{
    if st.len() == 0 {
        assert(base + st =~= base);
    } else {
        lemma_scan_join(base, st);
        assert(is_name(st.last())) by {
            assert(st.last() == st[st.len() - 1]);
        }
        assert((base + st.drop_last()).push(st.last()) =~= base + st);
    }
}

/// Resolving the absolute path of a stack of names gives back the stack.
pub proof fn lemma_resolve_render(st: Seq<Seq<char>>)
    requires
        all_names(st),
    ensures
        resolve(Seq::empty(), render(st)) == st,
        is_absolute(render(st)),
{
    let e = Seq::<Seq<char>>::empty();
    lemma_scan_concat((e, Seq::empty()), seq!['/'], join(st));
    lemma_scan_char((e, Seq::empty()), '/');
    assert(scan((e, Seq::empty()), seq!['/']) == (e, Seq::<char>::empty()));
    if st.len() == 0 {
        assert(join(st) =~= Seq::<char>::empty());
        assert(render(st) =~= seq!['/']);
    } else {
        lemma_scan_join(e, st);
        assert(is_name(st.last())) by {
            assert(st.last() == st[st.len() - 1]);
        }
        assert((e + st.drop_last()).push(st.last()) =~= st);
    }
}

/// Reading any text keeps the stack made of names and the current component
/// free of separators.
proof fn lemma_scan_names(state: (Seq<Seq<char>>, Seq<char>), s: Seq<char>)
    requires
        all_names(state.0),
        !state.1.contains('/'),
    ensures
        all_names(scan(state, s).0),
        !scan(state, s).1.contains('/'),
    decreases s.len(),
{
    if s.len() > 0 {
        lemma_scan_names(state, s.drop_last());
        let (st, cur) = scan(state, s.drop_last());
        if s.last() == '/' {
            lemma_flush_names(st, cur);
        } else {
            assert(!cur.push(s.last()).contains('/')) by {
                if cur.push(s.last()).contains('/') {
                    let i = choose|i: int| 0 <= i < cur.len() + 1 && cur.push(s.last())[i] == '/';
                    if i < cur.len() {
                        assert(cur[i] == '/');
                    }
                }
            }
        }
    }
}

proof fn lemma_flush_names(st: Seq<Seq<char>>, cur: Seq<char>)
    requires
        all_names(st),
        !cur.contains('/'),
    ensures
        all_names(flush(st, cur)),
{
    let r = flush(st, cur);
    assert forall|i: int| 0 <= i < r.len() implies is_name(#[trigger] r[i]) by {
        if i < st.len() {
            assert(r[i] == st[i]);
        }
    }
}

/// Resolving from a stack of names gives a stack of names.
pub proof fn lemma_resolve_names(base: Seq<Seq<char>>, s: Seq<char>)
    requires
        all_names(base),
    ensures
        all_names(resolve(base, s)),
{
    lemma_scan_names((base, Seq::empty()), s);
    let (st, cur) = scan((base, Seq::empty()), s);
    lemma_flush_names(st, cur);
}

/// Normalization is idempotent: normalizing a normal form changes nothing.
pub proof fn lemma_normalize_idempotent(s: Seq<char>)
    ensures
        normalized(normalized(s)) == normalized(s),
{
    let st = resolve(Seq::empty(), s);
    lemma_resolve_names(Seq::empty(), s);
    if is_absolute(s) {
        lemma_resolve_render(st);
    } else {
        lemma_resolve_join(Seq::empty(), st);
        assert(Seq::<Seq<char>>::empty() + st =~= st);
        if st.len() > 0 {
            assert(!is_absolute(join(st))) by {
                lemma_join_first(st);
                assert(is_name(st[0]));
                assert(st[0][0] != '/') by {
                    assert(!st[0].contains('/'));
                }
            }
        }
    }
}

proof fn lemma_join_first(st: Seq<Seq<char>>)
    requires
        all_names(st),
        st.len() > 0,
    ensures
        join(st).len() > 0,
        join(st)[0] == st[0][0],
    decreases st.len(),
{
    assert(is_name(st[0]));
    if st.len() > 1 {
        let prev = st.drop_last();
        assert(all_names(prev)) by {
            assert forall|i: int| 0 <= i < prev.len() implies is_name(#[trigger] prev[i]) by {
                assert(prev[i] == st[i]);
            }
        }
        lemma_join_first(prev);
    }
}

/// Resolving a relative path from the working directory `cwd` is normalizing
/// it joined onto `cwd`.
pub proof fn lemma_relative_is_joined(cwd: Seq<Seq<char>>, p: Seq<char>)
    requires
        all_names(cwd),
    ensures
        resolve(cwd, p) == resolve(Seq::empty(), render(cwd) + seq!['/'] + p),
        normalized(render(cwd) + seq!['/'] + p) == render(resolve(cwd, p)),
{
    let e = Seq::<Seq<char>>::empty();
    let start = (e, Seq::<char>::empty());
    lemma_scan_concat(start, render(cwd) + seq!['/'], p);
    lemma_scan_concat(start, render(cwd), seq!['/']);
    lemma_resolve_render(cwd);
    let mid = scan(start, render(cwd));
    assert(flush(mid.0, mid.1) == cwd);
    lemma_scan_char(mid, '/');
    let s = render(cwd) + seq!['/'] + p;
    assert(is_absolute(s)) by {
        assert(s[0] == render(cwd)[0]);
    }
}

/// `k` parent steps: `/..` written `k` times.
pub open spec fn parent_steps(k: nat) -> Seq<char>
    decreases k,
{
    if k == 0 {
        Seq::empty()
    } else {
        parent_steps((k - 1) as nat) + seq!['/', '.', '.']
    }
}

/// The stack `st` with its last `k` components removed; empty once `k` reaches
/// its length.
pub open spec fn pop_n(st: Seq<Seq<char>>, k: nat) -> Seq<Seq<char>> {
    if k >= st.len() {
        Seq::empty()
    } else {
        st.take(st.len() - k)
    }
}

proof fn lemma_scan_parent_steps(state: (Seq<Seq<char>>, Seq<char>), k: nat)
    requires
        k > 0,
    ensures
        scan(state, parent_steps(k)) == (pop_n(flush(state.0, state.1), (k - 1) as nat), seq![
            '.',
            '.',
        ]),
    decreases k,
{
    let dd = seq!['.', '.'];
    let up = seq!['/', '.', '.'];
    assert(Seq::<char>::empty().push('.').push('.') =~= dd);
    let f = flush(state.0, state.1);
    let prior = if k == 1 {
        state
    } else {
        (pop_n(f, (k - 2) as nat), dd)
    };
    if k == 1 {
        assert(parent_steps(1) =~= Seq::<char>::empty() + up);
        assert(Seq::<char>::empty() + up =~= up);
        assert(scan(state, parent_steps(0)) == state);
    } else {
        lemma_scan_parent_steps(state, (k - 1) as nat);
        lemma_flush_pop(f, (k - 2) as nat);
    }
    // reading `/..` from `prior`
    lemma_scan_concat(state, parent_steps((k - 1) as nat), up);
    assert(up =~= seq!['/'] + seq!['.'] + seq!['.']);
    lemma_scan_concat(prior, seq!['/'] + seq!['.'], seq!['.']);
    lemma_scan_concat(prior, seq!['/'], seq!['.']);
    lemma_scan_char(prior, '/');
    let after_sep = (flush(prior.0, prior.1), Seq::<char>::empty());
    lemma_scan_char(after_sep, '.');
    lemma_scan_char(step(after_sep, '.'), '.');
    if k == 1 {
        assert(pop_n(f, 0) =~= f);
    } else {
        assert(flush(prior.0, prior.1) == pop_n(f, (k - 1) as nat));
    }
}

proof fn lemma_flush_pop(st: Seq<Seq<char>>, k: nat)
    ensures
        flush(pop_n(st, k), seq!['.', '.']) == pop_n(st, k + 1),
{
    let dd = seq!['.', '.'];
    assert(dd.len() == 2);
    assert(dd != seq!['.']);
    let p = pop_n(st, k);
    if k + 1 < st.len() {
        assert(p.drop_last() =~= pop_n(st, k + 1));
    } else if k < st.len() {
        assert(p.drop_last() =~= pop_n(st, k + 1));
    } else {
        assert(p.len() == 0);
    }
}

/// Following a canonical path with `k` parent steps leads `k` levels up, and
/// never above the root: steps taken at the root do nothing.
pub proof fn lemma_parent_steps_clamp(st: Seq<Seq<char>>, k: nat)
    requires
        all_names(st),
    ensures
        resolve(Seq::empty(), render(st) + parent_steps(k)) == pop_n(st, k),
        normalized(render(st) + parent_steps(k)) == render(pop_n(st, k)),
{
    let e = Seq::<Seq<char>>::empty();
    let s = render(st) + parent_steps(k);
    lemma_resolve_render(st);
    lemma_scan_concat((e, Seq::empty()), render(st), parent_steps(k));
    let mid = scan((e, Seq::empty()), render(st));
    assert(flush(mid.0, mid.1) == st);
    if k == 0 {
        assert(s =~= render(st));
        assert(pop_n(st, 0) =~= st);
    } else {
        lemma_scan_parent_steps(mid, k);
        lemma_flush_pop(st, (k - 1) as nat);
    }
    assert(is_absolute(s)) by {
        assert(s[0] == render(st)[0]);
    }
}

/// Finishes the component `cur` on top of the stack `st`.
fn push_component(st: &mut Vec<String>, cur: &str)
    ensures
        names_of(final(st)@) == flush(names_of(old(st)@), cur@),
{
    let ghost before = names_of(st@);
    let len = cur.unicode_len();
    if len == 0 {
    } else if len == 1 && cur.get_char(0) == '.' {
        assert(cur@ =~= seq!['.']);
    } else if len == 2 && cur.get_char(0) == '.' && cur.get_char(1) == '.' {
        assert(cur@ =~= seq!['.', '.']);
        if st.len() > 0 {
            st.pop();
            assert(names_of(st@) =~= before.drop_last());
        }
    } else {
        assert(cur@ != seq!['.']) by {
            if len == 1 {
                assert(cur@[0] != seq!['.'][0]);
            }
        }
        assert(cur@ != seq!['.', '.']) by {
            if len == 2 {
                assert(cur@[0] != seq!['.', '.'][0] || cur@[1] != seq!['.', '.'][1]);
            }
        }
        st.push(String::from_str(cur));
        assert(names_of(st@) =~= before.push(cur@));
    }
}

/// Reads `path` onto the stack `base` and returns the resulting stack.
pub fn resolve_onto(base: Vec<String>, path: &str) -> (r: Vec<String>)
    ensures
        names_of(r@) == resolve(names_of(base@), path@),
{
    let ghost b = names_of(base@);
    let n = path.unicode_len();
    let mut st = base;
    let mut start: usize = 0;
    let mut i: usize = 0;
    assert(path@.take(0) =~= Seq::<char>::empty());
    assert(path@.subrange(0, 0) =~= Seq::<char>::empty());
    while i < n
        invariant
            n == path@.len(),
            start <= i <= n,
            scan((b, Seq::empty()), path@.take(i as int)) == (names_of(st@), path@.subrange(
                start as int,
                i as int,
            )),
        decreases n - i,
    {
        let c = path.get_char(i);
        assert(path@.take(i + 1).drop_last() =~= path@.take(i as int));
        if c == '/' {
            let cur = path.substring_char(start, i);
            push_component(&mut st, cur);
            start = i + 1;
            assert(path@.subrange(start as int, i + 1) =~= Seq::<char>::empty());
        } else {
            assert(path@.subrange(start as int, i + 1) =~= path@.subrange(
                start as int,
                i as int,
            ).push(c));
        }
        i = i + 1;
    }
    assert(path@.take(n as int) =~= path@);
    let cur = path.substring_char(start, n);
    push_component(&mut st, cur);
    st
}

/// The components of `st` joined by `/`.
pub fn join_names(st: &Vec<String>) -> (r: String)
    ensures
        r@ == join(names_of(st@)),
{
    let mut out = String::new();
    let mut i: usize = 0;
    while i < st.len()
        invariant
            i <= st.len(),
            out@ == join(names_of(st@).take(i as int)),
        decreases st.len() - i,
    {
        let ghost prev = names_of(st@).take(i as int);
        assert(names_of(st@).take(i + 1).drop_last() =~= prev);
        if i > 0 {
            out.append("/");
            proof {
                reveal_strlit("/");
            }
        } else {
            assert(prev =~= Seq::<Seq<char>>::empty());
        }
        out.append(st[i].as_str());
        assert(out@ =~= join(names_of(st@).take(i + 1)));
        i = i + 1;
    }
    assert(names_of(st@).take(st.len() as int) =~= names_of(st@));
    out
}

/// The absolute path of a stack of components.
pub fn render_names(st: &Vec<String>) -> (r: String)
    ensures
        r@ == render(names_of(st@)),
{
    let tail = join_names(st);
    let out = String::from_str("/");
    proof {
        reveal_strlit("/");
    }
    let out = out.concat(tail.as_str());
    assert(out@ =~= render(names_of(st@)));
    out
}

/// The host path of the inner path `st` under the host directory `root`.
pub open spec fn host_join(root: Seq<char>, st: Seq<Seq<char>>) -> Seq<char> {
    if st.len() == 0 {
        root
    } else if root.len() > 0 && root.last() == '/' {
        root + join(st)
    } else {
        root + seq!['/'] + join(st)
    }
}

/// The host path of the inner path `st` under the host directory `root`.
pub fn host_path_of(root: &str, st: &Vec<String>) -> (r: String)
    ensures
        r@ == host_join(root@, names_of(st@)),
{
    let out = String::from_str(root);
    if st.len() == 0 {
        return out;
    }
    let n = root.unicode_len();
    let out = if n > 0 && root.get_char(n - 1) == '/' {
        out
    } else {
        proof {
            reveal_strlit("/");
        }
        out.concat("/")
    };
    let tail = join_names(st);
    out.concat(tail.as_str())
}

/// Whether `path` starts with the separator.
pub fn starts_absolute(path: &str) -> (r: bool)
    ensures
        r == is_absolute(path@),
{
    path.unicode_len() > 0 && path.get_char(0) == '/'
}

/// Normalizes an arbitrary path: drops `.` components and empty ones, lets
/// `..` remove the component before it (never going above the start), and
/// removes a final separator. An absolute path stays absolute.
pub fn normalize(path: &str) -> (r: String)
    ensures
        r@ == normalized(path@),
{
    let st = resolve_onto(Vec::new(), path);
    assert(names_of(Seq::<String>::empty()) =~= Seq::<Seq<char>>::empty());
    if starts_absolute(path) {
        render_names(&st)
    } else {
        join_names(&st)
    }
}

/// Whether the path consists of the root alone (separators and `.` after it
/// do not count).
pub fn is_virtual_root(path: &str) -> (r: bool)
    ensures
        r == is_root_only(path@),
{
    let n = path.unicode_len();
    if n == 0 || path.get_char(0) != '/' {
        return false;
    }
    let mut i: usize = 0;
    while i < n
        invariant
            n == path@.len(),
            i <= n,
            is_absolute(path@),
            forall|j: int| 0 <= j < i ==> #[trigger] path@[j] == '/' || path@[j] == '.',
            forall|j: int|
                0 <= j < i && #[trigger] path@[j] == '.' ==> j + 1 == n || path@[j + 1] == '/',
        decreases n - i,
    {
        let c = path.get_char(i);
        if c != '/' && c != '.' {
            return false;
        }
        if c == '.' && i + 1 < n && path.get_char(i + 1) != '/' {
            return false;
        }
        i = i + 1;
    }
    true
}

/// The inner path that `path` denotes when the working directory is `cwd`:
/// an absolute path is read from the root, a relative one from `cwd`.
pub fn inner_path(cwd: &Vec<String>, path: &str) -> (r: Vec<String>)
    ensures
        names_of(r@) == inner_of(names_of(cwd@), path@),
{
    if starts_absolute(path) {
        let r = resolve_onto(Vec::new(), path);
        assert(names_of(Seq::<String>::empty()) =~= Seq::<Seq<char>>::empty());
        r
    } else {
        resolve_onto(clone_names(cwd), path)
    }
}

/// A copy of a stack of components.
pub fn clone_names(st: &Vec<String>) -> (r: Vec<String>)
    ensures
        names_of(r@) == names_of(st@),
{
    let mut out: Vec<String> = Vec::new();
    let mut i: usize = 0;
    while i < st.len()
        invariant
            i <= st.len(),
            names_of(out@) =~= names_of(st@).take(i as int),
        decreases st.len() - i,
    {
        let ghost prev = out@;
        out.push(st[i].clone());
        assert(out@ =~= prev.push(st@[i as int]));
        assert(names_of(st@).take(i + 1) =~= names_of(st@).take(i as int).push(st@[i as int]@));
        i = i + 1;
    }
    assert(names_of(st@).take(st.len() as int) =~= names_of(st@));
    out
}

} // verus!
