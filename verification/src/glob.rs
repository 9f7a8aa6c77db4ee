//! Glob matching where `*` stands for any run of characters.
use vstd::prelude::*;

use crate::text::chars_of;

verus! {

/// `text` matches `pattern`, where each `*` in the pattern matches any
/// (possibly empty) run of characters and every other character matches itself.
pub open spec fn glob(pattern: Seq<char>, text: Seq<char>) -> bool
    decreases pattern.len(), text.len(),
{
    if pattern.len() == 0 {
        text.len() == 0
    } else if pattern[0] == '*' {
        glob(pattern.drop_first(), text) || (text.len() > 0 && glob(pattern, text.drop_first()))
    } else {
        text.len() > 0 && text[0] == pattern[0] && glob(pattern.drop_first(), text.drop_first())
    }
}

/// Every pattern matches its own text.
pub proof fn lemma_glob_refl(p: Seq<char>)
    ensures
        glob(p, p),
    decreases p.len(),
{
    if p.len() > 0 {
        lemma_glob_refl(p.drop_first());
        if p[0] == '*' {
            assert(glob(p, p.drop_first()));
        }
    }
}

/// The glob `*` matches every text.
pub proof fn law_glob_star(text: Seq<char>)
    ensures
        glob(seq!['*'], text),
    decreases text.len(),
{
    let p = seq!['*'];
    assert(p.len() == 1 && p[0] == '*');
    assert(p.drop_first() =~= Seq::<char>::empty());
    reveal_with_fuel(glob, 2);
    if text.len() > 0 {
        law_glob_star(text.drop_first());
        assert(glob(p, text.drop_first()));
    } else {
        assert(glob(p.drop_first(), text));
    }
}

/// A pattern without `*` matches exactly its own text.
pub proof fn law_glob_literal(pattern: Seq<char>, text: Seq<char>)
    requires
        !pattern.contains('*'),
    ensures
        glob(pattern, text) <==> pattern == text,
    decreases pattern.len(),
{
    if pattern.len() > 0 {
        assert(pattern[0] != '*');
        let rest = pattern.drop_first();
        assert(!rest.contains('*')) by {
            if rest.contains('*') {
                let k = choose|k: int| 0 <= k < rest.len() && rest[k] == '*';
                assert(pattern[k + 1] == '*');
            }
        }
        if text.len() > 0 {
            law_glob_literal(rest, text.drop_first());
            if pattern == text {
                assert(rest == text.drop_first());
            }
            if text[0] == pattern[0] && rest == text.drop_first() {
                assert forall|k: int| 0 <= k < pattern.len() implies pattern[k] == text[k] by {
                    if k > 0 {
                        assert(pattern[k] == rest[k - 1]);
                        assert(text[k] == text.drop_first()[k - 1]);
                    }
                }
                assert(pattern =~= text);
            }
        }
    } else {
        if text.len() == 0 {
            assert(pattern =~= text);
        }
    }
}

proof fn lemma_skip_drop_first<A>(s: Seq<A>, i: int)
    requires
        0 <= i < s.len(),
    ensures
        s.skip(i).drop_first() == s.skip(i + 1),
        s.skip(i)[0] == s[i],
        s.skip(i).len() > 0,
{
    assert(s.skip(i).drop_first() =~= s.skip(i + 1));
}

/// Row `i` of the matching table: entry `j` tells whether the pattern from
/// position `i` matches the text from position `j`.
spec fn row_ok(p: Seq<char>, t: Seq<char>, i: int, row: Seq<bool>) -> bool {
    &&& row.len() == t.len() + 1
    &&& forall|j: int| 0 <= j <= t.len() ==> #[trigger] row[j] == glob(p.skip(i), t.skip(j))
}

/// Whether `text` matches the glob `pattern` (`*` matches any run of characters).
pub fn glob_match(pattern: &str, text: &str) -> (res: bool)
    ensures
        res == glob(pattern@, text@),
{
    let p = chars_of(pattern);
    let t = chars_of(text);
    let n = p.len();
    let m = t.len();
    // Row for the empty remaining pattern: only the empty remaining text matches.
    let mut next: Vec<bool> = Vec::new();
    let mut j: usize = 0;
    while j < m
        invariant
            0 <= j <= m,
            m == t@.len(),
            next@.len() == j,
            forall|k: int| 0 <= k < j ==> #[trigger] next@[k] == false,
        decreases m - j,
    {
        next.push(false);
        j = j + 1;
    }
    next.push(true);
    assert forall|k: int| 0 <= k <= t@.len() implies #[trigger] next@[k] == glob(
        p@.skip(n as int),
        t@.skip(k),
    ) by {
        assert(p@.skip(n as int).len() == 0);
    }
    let mut i: usize = n;
    while i > 0
        invariant
            0 <= i <= n,
            n == p@.len(),
            m == t@.len(),
            row_ok(p@, t@, i as int, next@),
        decreases i,
    {
        let pi = p[i - 1];
        let mut cur: Vec<bool> = Vec::new();
        let mut k: usize = 0;
        while k < m
            invariant
                0 <= k <= m,
                m == t@.len(),
                cur@.len() == k,
            decreases m - k,
        {
            cur.push(false);
            k = k + 1;
        }
        cur.push(false);
        let mut jj: usize = m;
        proof {
            lemma_skip_drop_first(p@, i - 1);
            assert(t@.skip(m as int).len() == 0);
        }
        let last = if pi == '*' { next[m] } else { false };
        cur.set(m, last);
        while jj > 0
            invariant
                0 <= jj <= m,
                1 <= i <= n,
                n == p@.len(),
                m == t@.len(),
                pi == p@[i - 1],
                cur@.len() == m + 1,
                row_ok(p@, t@, i as int, next@),
                forall|k: int|
                    jj <= k <= m ==> #[trigger] cur@[k] == glob(p@.skip(i - 1), t@.skip(k)),
            decreases jj,
        {
            let j = jj - 1;
            proof {
                lemma_skip_drop_first(p@, i - 1);
                lemma_skip_drop_first(t@, j as int);
            }
            let v = if pi == '*' {
                next[j] || cur[j + 1]
            } else {
                t[j] == pi && next[j + 1]
            };
            cur.set(j, v);
            jj = j;
        }
        next = cur;
        i = i - 1;
    }
    assert(p@.skip(0) =~= p@);
    assert(t@.skip(0) =~= t@);
    next[0]
}

} // verus!
