//! Glob patterns: `*` matches any run of characters, `?` any single
//! character, every other character only itself.

use vstd::prelude::*;

verus! {

/// A glob pattern.
pub struct GlobPattern {
    pub pattern: String,
}

/// Whether a pattern matches a text.
pub open spec fn glob_match(p: Seq<char>, t: Seq<char>) -> bool
    decreases p.len(), t.len(),
{
    if p.len() == 0 {
        t.len() == 0
    } else if p[0] == '*' {
        glob_match(p.skip(1), t) || (t.len() > 0 && glob_match(p, t.skip(1)))
    } else {
        t.len() > 0 && (p[0] == t[0] || p[0] == '?') && glob_match(p.skip(1), t.skip(1))
    }
}

impl GlobPattern {
    /// Build a pattern from its text.
    pub fn new(pattern: String) -> (r: GlobPattern)
        ensures
            r.pattern@ == pattern@,
    {
        GlobPattern { pattern }
    }

    /// A structural copy of the pattern.
    pub fn duplicate(&self) -> (r: GlobPattern)
        ensures
            r.pattern@ == self.pattern@,
    {
        GlobPattern { pattern: self.pattern.clone() }
    }

    /// Whether this pattern matches the given text.
    pub fn matches(&self, text: &str) -> (r: bool)
        ensures
            r == glob_match(self.pattern@, text@),
    {
        let p = crate::chars::str_to_chars(self.pattern.as_str());
        let t = crate::chars::str_to_chars(text);
        let r = glob_match_at(&p, &t, 0, 0);
        proof {
            assert(p@.skip(0) =~= p@);
            assert(t@.skip(0) =~= t@);
        }
        r
    }
}

/// Whether the pattern from position `pi` matches the text from
/// position `ti`.
fn glob_match_at(p: &Vec<char>, t: &Vec<char>, pi: usize, ti: usize) -> (r: bool)
    requires
        pi <= p@.len(),
        ti <= t@.len(),
    ensures
        r == glob_match(p@.skip(pi as int), t@.skip(ti as int)),
    decreases p@.len() - pi, t@.len() - ti,
{
    let ghost ps = p@.skip(pi as int);
    let ghost ts = t@.skip(ti as int);
    if pi == p.len() {
        ti == t.len()
    } else if p[pi] == '*' {
        proof {
            assert(ps[0] == p@[pi as int]);
            assert(ps.skip(1) =~= p@.skip(pi + 1));
            assert(ts.len() > 0 ==> ts.skip(1) =~= t@.skip(ti + 1));
        }
        if glob_match_at(p, t, pi + 1, ti) {
            true
        } else if ti < t.len() {
            glob_match_at(p, t, pi, ti + 1)
        } else {
            false
        }
    } else {
        proof {
            assert(ps[0] == p@[pi as int]);
            assert(ps.skip(1) =~= p@.skip(pi + 1));
            assert(ts.len() > 0 ==> ts[0] == t@[ti as int]);
            assert(ts.len() > 0 ==> ts.skip(1) =~= t@.skip(ti + 1));
        }
        if ti == t.len() {
            false
        } else if p[pi] == t[ti] || p[pi] == '?' {
            glob_match_at(p, t, pi + 1, ti + 1)
        } else {
            false
        }
    }
}

} // verus!
