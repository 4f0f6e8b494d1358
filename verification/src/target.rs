//! Target patterns and their compiled matchers.
//!
//! A routing pattern is a comma-separated list of atoms; surrounding ASCII
//! whitespace of each atom is trimmed. An atom `*` matches every target, an
//! atom ending in `*` matches every target that starts with the atom without
//! its trailing stars, and any other atom matches exactly itself.
use vstd::prelude::*;

use crate::text::{chars_of, has_prefix, is_prefix, str_eq, string_of};

verus! {

/// ASCII whitespace, as trimmed around pattern atoms.
pub open spec fn is_space(c: char) -> bool {
    c == ' ' || c == '\t' || c == '\n' || c == '\r' || c == '\u{b}' || c == '\u{c}'
}

/// `s` with leading whitespace removed.
pub open spec fn trim_front(s: Seq<char>) -> Seq<char>
    decreases s.len(),
{
    if s.len() > 0 && is_space(s[0]) {
        trim_front(s.drop_first())
    } else {
        s
    }
}

/// `s` with trailing whitespace removed.
pub open spec fn trim_back(s: Seq<char>) -> Seq<char>
    decreases s.len(),
{
    if s.len() > 0 && is_space(s.last()) {
        trim_back(s.drop_last())
    } else {
        s
    }
}

/// `s` with surrounding whitespace removed.
pub open spec fn trim(s: Seq<char>) -> Seq<char> {
    trim_back(trim_front(s))
}

/// `s` with every trailing `*` removed.
pub open spec fn strip_stars(s: Seq<char>) -> Seq<char>
    decreases s.len(),
{
    if s.len() > 0 && s.last() == '*' {
        strip_stars(s.drop_last())
    } else {
        s
    }
}

/// Whether one (already trimmed) atom matches a target name.
pub open spec fn atom_matches(atom: Seq<char>, t: Seq<char>) -> bool {
    if atom == seq!['*'] {
        true
    } else if atom.len() > 0 && atom.last() == '*' {
        is_prefix(strip_stars(atom), t)
    } else {
        atom == t
    }
}

/// The pattern split at every comma. The empty pattern is one empty atom.
pub open spec fn split_commas(s: Seq<char>) -> Seq<Seq<char>>
    decreases s.len(),
{
    if s.len() == 0 {
        seq![Seq::<char>::empty()]
    } else if s[0] == ',' {
        seq![Seq::<char>::empty()] + split_commas(s.drop_first())
    } else {
        let rest = split_commas(s.drop_first());
        seq![seq![s[0]] + rest[0]] + rest.drop_first()
    }
}

/// Whether a pattern matches a target name: some atom of the pattern,
/// trimmed, matches it.
pub open spec fn pattern_matches(p: Seq<char>, t: Seq<char>) -> bool {
    exists|k: int|
        0 <= k < split_commas(p).len() && atom_matches(trim(#[trigger] split_commas(p)[k]), t)
}

proof fn lemma_split_commas_len(s: Seq<char>)
    ensures
        split_commas(s).len() >= 1,
    decreases s.len(),
{
    if s.len() == 0 {
    } else if s[0] == ',' {
    } else {
        lemma_split_commas_len(s.drop_first());
    }
}

proof fn lemma_split_commas_nocomma(s: Seq<char>)
    requires
        forall|i: int| 0 <= i < s.len() ==> s[i] != ',',
    ensures
        split_commas(s) =~~= seq![s],
    decreases s.len(),
{
    if s.len() == 0 {
        assert(split_commas(s) =~~= seq![s]);
    } else {
        lemma_split_commas_nocomma(s.drop_first());
        lemma_split_commas_len(s.drop_first());
        assert(seq![s[0]] + s.drop_first() =~= s);
    }
}

proof fn lemma_split_commas_comma(a: Seq<char>, r: Seq<char>)
    requires
        forall|i: int| 0 <= i < a.len() ==> a[i] != ',',
    ensures
        split_commas(a + seq![','] + r) =~~= seq![a] + split_commas(r),
    decreases a.len(),
{
    let s = a + seq![','] + r;
    if a.len() == 0 {
        assert(s[0] == ',');
        assert(s.drop_first() =~= r);
    } else {
        assert(s[0] == a[0]);
        assert(s[0] != ',');
        assert(s.drop_first() =~= a.drop_first() + seq![','] + r);
        lemma_split_commas_comma(a.drop_first(), r);
        lemma_split_commas_len(r);
        assert(seq![s[0]] + a.drop_first() =~= a);
    }
}

proof fn lemma_trim_front_range(s: Seq<char>, k: int)
    requires
        0 <= k <= s.len(),
        forall|j: int| 0 <= j < k ==> is_space(s[j]),
        k == s.len() || !is_space(s[k]),
    ensures
        trim_front(s) =~= s.skip(k),
    decreases k,
{
    if k == 0 {
        assert(s.skip(0) =~= s);
    } else {
        assert(is_space(s[0]));
        lemma_trim_front_range(s.drop_first(), k - 1);
        assert(s.drop_first().skip(k - 1) =~= s.skip(k));
    }
}

proof fn lemma_trim_back_range(s: Seq<char>, k: int)
    requires
        0 <= k <= s.len(),
        forall|j: int| k <= j < s.len() ==> is_space(s[j]),
        k == 0 || !is_space(s[k - 1]),
    ensures
        trim_back(s) =~= s.take(k),
    decreases s.len(),
{
    if k == s.len() {
        if s.len() == 0 || !is_space(s.last()) {
            assert(s.take(k) =~= s);
        } else {
            assert(!is_space(s[k - 1]));
            assert(false);
        }
    } else {
        assert(is_space(s.last()));
        lemma_trim_back_range(s.drop_last(), k);
        assert(s.drop_last().take(k) =~= s.take(k));
    }
}

proof fn lemma_strip_stars_range(s: Seq<char>, k: int)
    requires
        0 <= k <= s.len(),
        forall|j: int| k <= j < s.len() ==> s[j] == '*',
        k == 0 || s[k - 1] != '*',
    ensures
        strip_stars(s) =~= s.take(k),
    decreases s.len(),
{
    if k == s.len() {
        if s.len() == 0 || s.last() != '*' {
            assert(s.take(k) =~= s);
        } else {
            assert(s[k - 1] != '*');
            assert(false);
        }
    } else {
        assert(s.last() == '*');
        lemma_strip_stars_range(s.drop_last(), k);
        assert(s.drop_last().take(k) =~= s.take(k));
    }
}

proof fn lemma_atoms_exists_extend(prev: Seq<Seq<char>>, sub: Seq<char>, t: Seq<char>)
    ensures
        (exists|k: int|
            0 <= k < (prev + seq![sub]).len() && atom_matches(
                trim(#[trigger] (prev + seq![sub])[k]),
                t,
            )) <==> ((exists|k: int|
            0 <= k < prev.len() && atom_matches(trim(#[trigger] prev[k]), t)) || atom_matches(
            trim(sub),
            t,
        )),
{
    let done = prev + seq![sub];
    if exists|k: int| 0 <= k < done.len() && atom_matches(trim(#[trigger] done[k]), t) {
        let k = choose|k: int| 0 <= k < done.len() && atom_matches(trim(#[trigger] done[k]), t);
        if k < prev.len() {
            assert(prev[k] == done[k]);
        } else {
            assert(done[k] == sub);
        }
    }
    if exists|k: int| 0 <= k < prev.len() && atom_matches(trim(#[trigger] prev[k]), t) {
        let k = choose|k: int| 0 <= k < prev.len() && atom_matches(trim(#[trigger] prev[k]), t);
        assert(done[k] == prev[k]);
    }
    if atom_matches(trim(sub), t) {
        assert(done[prev.len() as int] == sub);
    }
}

/// Tests whether `c` is whitespace that is trimmed around atoms.
fn is_space_exec(c: char) -> (r: bool)
    ensures
        r == is_space(c),
{
    c == ' ' || c == '\t' || c == '\n' || c == '\r' || c == '\u{b}' || c == '\u{c}'
}

/// A copy of `cs[lo..hi]`.
fn copy_range(cs: &Vec<char>, lo: usize, hi: usize) -> (r: Vec<char>)
    requires
        lo <= hi <= cs@.len(),
    ensures
        r@ == cs@.subrange(lo as int, hi as int),
{
    let mut r: Vec<char> = Vec::new();
    let mut i: usize = lo;
    while i < hi
        invariant
            lo <= i <= hi <= cs@.len(),
            r@ == cs@.subrange(lo as int, i as int),
        decreases hi - i,
    {
        r.push(cs[i]);
        i = i + 1;
        assert(r@ =~= cs@.subrange(lo as int, i as int));
    }
    r
}

/// The atom `cs[lo..hi]` with surrounding whitespace removed.
fn trim_range(cs: &Vec<char>, lo: usize, hi: usize) -> (r: Vec<char>)
    requires
        lo <= hi <= cs@.len(),
    ensures
        r@ == trim(cs@.subrange(lo as int, hi as int)),
{
    let ghost sub = cs@.subrange(lo as int, hi as int);
    let mut a = lo;
    while a < hi && is_space_exec(cs[a])
        invariant
            lo <= a <= hi <= cs@.len(),
            forall|j: int| lo <= j < a ==> is_space(cs@[j]),
        decreases hi - a,
    {
        a = a + 1;
    }
    proof {
        lemma_trim_front_range(sub, a - lo);
        assert(sub.skip(a - lo) =~= cs@.subrange(a as int, hi as int));
    }
    let ghost fronted = cs@.subrange(a as int, hi as int);
    let mut b = hi;
    while b > a && is_space_exec(cs[b - 1])
        invariant
            lo <= a <= b <= hi <= cs@.len(),
            forall|j: int| b <= j < hi ==> is_space(cs@[j]),
        decreases b,
    {
        b = b - 1;
    }
    proof {
        lemma_trim_back_range(fronted, b - a);
        assert(fronted.take(b - a) =~= cs@.subrange(a as int, b as int));
    }
    copy_range(cs, a, b)
}

/// `a` with every trailing `*` removed.
fn strip_stars_vec(a: &Vec<char>) -> (r: Vec<char>)
    ensures
        r@ == strip_stars(a@),
{
    let mut b = a.len();
    while b > 0 && a[b - 1] == '*'
        invariant
            b <= a@.len(),
            forall|j: int| b <= j < a@.len() ==> a@[j] == '*',
        decreases b,
    {
        b = b - 1;
    }
    proof {
        lemma_strip_stars_range(a@, b as int);
        assert(a@.take(b as int) =~= a@.subrange(0, b as int));
    }
    copy_range(a, 0, b)
}

/// A routing pattern as collected at configuration time: an always-match
/// flag, the prefixes of the prefix atoms, and the exact atoms.
pub struct Target {
    pub all: bool,
    pub prefix: Vec<String>,
    pub items: Vec<String>,
}

/// A compiled routing pattern, as held by the logger.
pub struct InnerTarget {
    pub all: bool,
    pub prefix: Vec<String>,
    pub items: Vec<String>,
}

/// Whether a compiled table matches a target name.
pub open spec fn table_matches(
    all: bool,
    prefix: Seq<String>,
    items: Seq<String>,
    t: Seq<char>,
) -> bool {
    all || (exists|i: int| 0 <= i < items.len() && (#[trigger] items[i])@ == t) || (exists|i: int|
        0 <= i < prefix.len() && is_prefix((#[trigger] prefix[i])@, t))
}

impl Target {
    /// Whether this pattern matches a target name.
    pub open spec fn spec_test(&self, t: Seq<char>) -> bool {
        table_matches(self.all, self.prefix@, self.items@, t)
    }

    /// Compiles a pattern string: splits it at commas, trims each atom, and
    /// classifies it as always-match, prefix, or exact. The empty pattern is
    /// kept as one empty exact atom, so it matches only the empty target
    /// name: an unrecognized pattern routes nothing rather than widening
    /// scope.
    pub fn from(targets: &str) -> (r: Target)
        ensures
            forall|t: Seq<char>| #[trigger] r.spec_test(t) == pattern_matches(targets@, t),
    {
        let cs = chars_of(targets);
        let mut r = Target { all: false, prefix: Vec::new(), items: Vec::new() };
        let ghost mut done: Seq<Seq<char>> = Seq::empty();
        let mut start: usize = 0;
        let mut i: usize = 0;
        let n = cs.len();
        proof {
            assert(cs@.skip(0) =~= cs@);
            assert(split_commas(cs@) =~~= done + split_commas(cs@.skip(0)));
        }
        while i < n
            invariant
                start <= i <= n,
                n == cs@.len(),
                cs@ == targets@,
                forall|j: int| start <= j < i ==> cs@[j] != ',',
                split_commas(cs@) == done + split_commas(cs@.skip(start as int)),
                forall|t: Seq<char>|
                    #[trigger] r.spec_test(t) <==> exists|k: int|
                        0 <= k < done.len() && atom_matches(trim(#[trigger] done[k]), t),
            decreases n - i,
        {
            if cs[i] == ',' {
                let ghost sub = cs@.subrange(start as int, i as int);
                apply_atom(&mut r, &cs, start, i);
                proof {
                    assert(cs@.skip(start as int) =~= sub + seq![','] + cs@.skip(i + 1 as int));
                    lemma_split_commas_comma(sub, cs@.skip(i + 1 as int));
                    let prev = done;
                    done = done + seq![sub];
                    assert(split_commas(cs@) =~~= done + split_commas(cs@.skip(i + 1 as int)));
                    assert forall|t: Seq<char>|
                        #[trigger] r.spec_test(t) <==> exists|k: int|
                            0 <= k < done.len() && atom_matches(trim(#[trigger] done[k]), t) by {
                        lemma_atoms_exists_extend(prev, sub, t);
                    }
                }
                start = i + 1;
            }
            i = i + 1;
        }
        let ghost sub = cs@.subrange(start as int, n as int);
        apply_atom(&mut r, &cs, start, n);
        proof {
            assert(cs@.skip(start as int) =~= sub);
            lemma_split_commas_nocomma(sub);
            let prev = done;
            done = done + seq![sub];
            assert(split_commas(targets@) =~~= done);
            assert forall|t: Seq<char>| #[trigger] r.spec_test(t) == pattern_matches(
                targets@,
                t,
            ) by {
                lemma_atoms_exists_extend(prev, sub, t);
                assert(r.spec_test(t) <==> exists|k: int|
                    0 <= k < done.len() && atom_matches(trim(#[trigger] done[k]), t));
                assert(done == split_commas(targets@));
            }
        }
        r
    }
}

/// Classifies one atom of a pattern and adds it to the collected pattern.
fn apply_atom(r: &mut Target, cs: &Vec<char>, lo: usize, hi: usize)
    requires
        lo <= hi <= cs@.len(),
    ensures
        forall|t: Seq<char>|
            #[trigger] final(r).spec_test(t) == (old(r).spec_test(t) || atom_matches(
                trim(cs@.subrange(lo as int, hi as int)),
                t,
            )),
{
    let ghost atom = trim(cs@.subrange(lo as int, hi as int));
    let a = trim_range(cs, lo, hi);
    if a.len() == 1 && a[0] == '*' {
        proof {
            assert(a@ =~= seq!['*']);
        }
        r.all = true;
    } else if a.len() > 0 && a[a.len() - 1] == '*' {
        proof {
            assert(a@.last() == '*');
            assert(a@ != seq!['*']) by {
                if a@ =~= seq!['*'] {
                    assert(a@.len() == 1 && a@[0] == '*');
                }
            }
        }
        let p = strip_stars_vec(&a);
        let ps = string_of(&p);
        r.prefix.push(ps);
        assert forall|t: Seq<char>| #[trigger] final(r).spec_test(t) == (old(r).spec_test(t)
            || atom_matches(atom, t)) by {
            assert(final(r).prefix@[final(r).prefix@.len() - 1]@ == strip_stars(atom));
            assert(forall|j: int|
                0 <= j < old(r).prefix@.len() ==> final(r).prefix@[j] == old(r).prefix@[j]);
            if old(r).spec_test(t) || atom_matches(atom, t) {
                assert(final(r).spec_test(t));
            }
            if final(r).spec_test(t) && !old(r).spec_test(t) {
                assert(atom_matches(atom, t));
            }
        }
    } else {
        proof {
            assert(a@ != seq!['*']) by {
                if a@ =~= seq!['*'] {
                    assert(a@.len() == 1 && a@[0] == '*');
                }
            }
            assert(!(a@.len() > 0 && a@.last() == '*'));
        }
        let s = string_of(&a);
        r.items.push(s);
        assert forall|t: Seq<char>| #[trigger] final(r).spec_test(t) == (old(r).spec_test(t)
            || atom_matches(atom, t)) by {
            assert(final(r).items@[final(r).items@.len() - 1]@ == atom);
            assert(forall|j: int|
                0 <= j < old(r).items@.len() ==> final(r).items@[j] == old(r).items@[j]);
            if old(r).spec_test(t) || atom_matches(atom, t) {
                assert(final(r).spec_test(t));
            }
            if final(r).spec_test(t) && !old(r).spec_test(t) {
                assert(atom_matches(atom, t));
            }
        }
    }
}

impl InnerTarget {
    /// Whether this compiled pattern matches a target name.
    pub open spec fn spec_test(&self, t: Seq<char>) -> bool {
        table_matches(self.all, self.prefix@, self.items@, t)
    }

    /// Freezes a collected pattern for the logger.
    pub fn from(t: Target) -> (r: InnerTarget)
        ensures
            forall|s: Seq<char>| #[trigger] r.spec_test(s) == t.spec_test(s),
    {
        InnerTarget { all: t.all, prefix: t.prefix, items: t.items }
    }

    /// Tests whether a target name matches this compiled pattern.
    pub fn test(&self, target: &str) -> (r: bool)
        ensures
            r == self.spec_test(target@),
    {
        if self.all {
            return true;
        }
        let mut i: usize = 0;
        while i < self.items.len()
            invariant
                i <= self.items@.len(),
                forall|j: int| 0 <= j < i ==> (#[trigger] self.items@[j])@ != target@,
            decreases self.items@.len() - i,
        {
            if str_eq(self.items[i].as_str(), target) {
                return true;
            }
            i = i + 1;
        }
        let mut i: usize = 0;
        while i < self.prefix.len()
            invariant
                i <= self.prefix@.len(),
                forall|j: int| 0 <= j < i ==> !is_prefix((#[trigger] self.prefix@[j])@, target@),
            decreases self.prefix@.len() - i,
        {
            if has_prefix(target, self.prefix[i].as_str()) {
                return true;
            }
            i = i + 1;
        }
        false
    }
}

} // verus!
