//! The order of inner paths: component by component, each component compared
//! character by character. A directory sorts before everything below it.
use vstd::prelude::*;
use vstd::string::*;
use crate::path::names_of;

verus! {

pub open spec fn text_lt(a: Seq<char>, b: Seq<char>) -> bool
    decreases a.len(),
{
    if a.len() == 0 {
        b.len() > 0
    } else if b.len() == 0 {
        false
    } else if a[0] == b[0] {
        text_lt(a.drop_first(), b.drop_first())
    } else {
        (a[0] as u32) < (b[0] as u32)
    }
}

pub open spec fn path_lt(a: Seq<Seq<char>>, b: Seq<Seq<char>>) -> bool
    decreases a.len(),
{
    if a.len() == 0 {
        b.len() > 0
    } else if b.len() == 0 {
        false
    } else if a[0] == b[0] {
        path_lt(a.drop_first(), b.drop_first())
    } else {
        text_lt(a[0], b[0])
    }
}

/// `t` is `x` or one of its ancestors.
pub open spec fn is_prefix(t: Seq<Seq<char>>, x: Seq<Seq<char>>) -> bool {
    t.len() <= x.len() && x.take(t.len() as int) == t
}

proof fn lemma_char_order(a: char, b: char)
    ensures
        a != b ==> (a as u32) != (b as u32),
{
}

pub proof fn lemma_text_irrefl(a: Seq<char>)
    ensures
        !text_lt(a, a),
    decreases a.len(),
{
    if a.len() > 0 {
        lemma_text_irrefl(a.drop_first());
    }
}

pub proof fn lemma_text_trans(a: Seq<char>, b: Seq<char>, c: Seq<char>)
    requires
        text_lt(a, b),
        text_lt(b, c),
    ensures
        text_lt(a, c),
    decreases a.len(),
{
    if a.len() > 0 && b.len() > 0 && c.len() > 0 {
        if a[0] == b[0] && b[0] == c[0] {
            lemma_text_trans(a.drop_first(), b.drop_first(), c.drop_first());
        }
    }
}

pub proof fn lemma_text_total(a: Seq<char>, b: Seq<char>)
    ensures
        a == b || text_lt(a, b) || text_lt(b, a),
    decreases a.len(),
{
    if a.len() > 0 && b.len() > 0 {
        if a[0] == b[0] {
            lemma_text_total(a.drop_first(), b.drop_first());
            if a.drop_first() == b.drop_first() {
                assert(a =~= seq![a[0]] + a.drop_first());
                assert(b =~= seq![b[0]] + b.drop_first());
            }
        } else {
            lemma_char_order(a[0], b[0]);
        }
    } else if a.len() == 0 && b.len() == 0 {
        assert(a =~= b);
    }
}

pub proof fn lemma_path_irrefl(a: Seq<Seq<char>>)
    ensures
        !path_lt(a, a),
    decreases a.len(),
{
    if a.len() > 0 {
        lemma_path_irrefl(a.drop_first());
    }
}

pub proof fn lemma_path_trans(a: Seq<Seq<char>>, b: Seq<Seq<char>>, c: Seq<Seq<char>>)
    requires
        path_lt(a, b),
        path_lt(b, c),
    ensures
        path_lt(a, c),
    decreases a.len(),
{
    if a.len() > 0 && b.len() > 0 && c.len() > 0 {
        if a[0] == b[0] && b[0] == c[0] {
            lemma_path_trans(a.drop_first(), b.drop_first(), c.drop_first());
        } else if a[0] == b[0] {
        } else if b[0] == c[0] {
        } else {
            lemma_text_trans(a[0], b[0], c[0]);
            if a[0] == c[0] {
                lemma_text_irrefl(a[0]);
                lemma_text_trans(c[0], b[0], a[0]);
                assert(false) by {
                    lemma_text_trans(a[0], b[0], c[0]);
                }
            }
        }
    }
}

pub proof fn lemma_path_total(a: Seq<Seq<char>>, b: Seq<Seq<char>>)
    ensures
        a == b || path_lt(a, b) || path_lt(b, a),
    decreases a.len(),
{
    if a.len() > 0 && b.len() > 0 {
        if a[0] == b[0] {
            lemma_path_total(a.drop_first(), b.drop_first());
            if a.drop_first() == b.drop_first() {
                assert(a =~= seq![a[0]] + a.drop_first());
                assert(b =~= seq![b[0]] + b.drop_first());
            }
        } else {
            lemma_text_total(a[0], b[0]);
        }
    } else if a.len() == 0 && b.len() == 0 {
        assert(a =~= b);
    }
}

pub proof fn lemma_path_asym(a: Seq<Seq<char>>, b: Seq<Seq<char>>)
    requires
        path_lt(a, b),
    ensures
        !path_lt(b, a),
{
    if path_lt(b, a) {
        lemma_path_trans(a, b, a);
        lemma_path_irrefl(a);
    }
}

/// An ancestor sorts before every path below it.
pub proof fn lemma_prefix_lt(t: Seq<Seq<char>>, x: Seq<Seq<char>>)
    requires
        is_prefix(t, x),
        t.len() < x.len(),
    ensures
        path_lt(t, x),
    decreases t.len(),
{
    if t.len() > 0 {
        assert(x[0] == t[0]) by {
            assert(x.take(t.len() as int)[0] == x[0]);
        }
        assert(x.drop_first().take(t.len() - 1) =~= t.drop_first()) by {
            assert forall|i: int| 0 <= i < t.len() - 1 implies x.drop_first().take(t.len() - 1)[i]
                == t.drop_first()[i] by {
                assert(x.take(t.len() as int)[i + 1] == x[i + 1]);
            }
        }
        lemma_prefix_lt(t.drop_first(), x.drop_first());
    }
}

/// Whether `a` sorts before `b`.
pub fn text_less(a: &str, b: &str) -> (r: bool)
    ensures
        r == text_lt(a@, b@),
{
    let n = a.unicode_len();
    let m = b.unicode_len();
    let mut i: usize = 0;
    assert(a@.skip(0) =~= a@);
    assert(b@.skip(0) =~= b@);
    while i < n && i < m
        invariant
            n == a@.len(),
            m == b@.len(),
            i <= n,
            i <= m,
            text_lt(a@, b@) == text_lt(a@.skip(i as int), b@.skip(i as int)),
        decreases n - i,
    {
        let c = a.get_char(i);
        let d = b.get_char(i);
        assert(a@.skip(i as int)[0] == c);
        assert(b@.skip(i as int)[0] == d);
        if c != d {
            return (c as u32) < (d as u32);
        }
        assert(a@.skip(i as int).drop_first() =~= a@.skip(i + 1));
        assert(b@.skip(i as int).drop_first() =~= b@.skip(i + 1));
        i = i + 1;
    }
    i == n && i < m
}

/// Whether the two stacks of components are equal.
pub fn same_names(a: &Vec<String>, b: &Vec<String>) -> (r: bool)
    ensures
        r == (names_of(a@) == names_of(b@)),
{
    if a.len() != b.len() {
        assert(names_of(a@).len() != names_of(b@).len());
        return false;
    }
    let mut i: usize = 0;
    while i < a.len()
        invariant
            a.len() == b.len(),
            i <= a.len(),
            forall|j: int| 0 <= j < i ==> a@[j]@ == b@[j]@,
        decreases a.len() - i,
    {
        if a[i] != b[i] {
            assert(names_of(a@)[i as int] != names_of(b@)[i as int]);
            return false;
        }
        i = i + 1;
    }
    assert(names_of(a@) =~= names_of(b@));
    true
}

/// Whether `t` is `x` or one of its ancestors.
pub fn has_prefix(t: &Vec<String>, x: &Vec<String>) -> (r: bool)
    ensures
        r == is_prefix(names_of(t@), names_of(x@)),
{
    if t.len() > x.len() {
        return false;
    }
    let mut i: usize = 0;
    while i < t.len()
        invariant
            t.len() <= x.len(),
            i <= t.len(),
            forall|j: int| 0 <= j < i ==> t@[j]@ == x@[j]@,
        decreases t.len() - i,
    {
        if t[i] != x[i] {
            assert(names_of(x@).take(t.len() as int)[i as int] != names_of(t@)[i as int]);
            return false;
        }
        i = i + 1;
    }
    assert(names_of(x@).take(t.len() as int) =~= names_of(t@));
    true
}

/// Whether `a` sorts before `b`.
pub fn path_less(a: &Vec<String>, b: &Vec<String>) -> (r: bool)
    ensures
        r == path_lt(names_of(a@), names_of(b@)),
{
    let ghost sa = names_of(a@);
    let ghost sb = names_of(b@);
    let mut i: usize = 0;
    assert(sa.skip(0) =~= sa);
    assert(sb.skip(0) =~= sb);
    while i < a.len() && i < b.len()
        invariant
            sa == names_of(a@),
            sb == names_of(b@),
            i <= a.len(),
            i <= b.len(),
            path_lt(sa, sb) == path_lt(sa.skip(i as int), sb.skip(i as int)),
        decreases a.len() - i,
    {
        assert(sa.skip(i as int)[0] == a@[i as int]@);
        assert(sb.skip(i as int)[0] == b@[i as int]@);
        if a[i] != b[i] {
            return text_less(a[i].as_str(), b[i].as_str());
        }
        assert(sa.skip(i as int).drop_first() =~= sa.skip(i + 1));
        assert(sb.skip(i as int).drop_first() =~= sb.skip(i + 1));
        i = i + 1;
    }
    i == a.len() && i < b.len()
}

} // verus!
