//! Memoised shell-expression matching: each pattern is compiled once, under its
//! exact text, and reused by every later match against it.
use vstd::prelude::*;
use vstd::string::*;
use crate::types::Error;
use regex::Regex;

verus! {

#[verifier::external_type_specification]
#[verifier::external_body]
pub struct ExRegex(Regex);

/// Whether `regex::Regex::new` accepts the pattern.
pub uninterp spec fn regex_compiles(pattern: Seq<char>) -> bool;

/// Whether the regex compiled from `pattern` by `regex::Regex::new` finds a
/// match in `text`.
pub uninterp spec fn regex_accepts(pattern: Seq<char>, text: Seq<char>) -> bool;

/// A compiled regex together with the exact pattern it was built from.
pub struct Matcher {
    source: String,
    re: Regex,
}

/// Relies on `regex::Regex::new`: whether it succeeds depends on the pattern alone.
/// The pattern is kept beside the compiled regex.
#[verifier::external_body]
fn compile_regex(pattern: &str) -> (r: Result<Matcher, String>)
    ensures
        r is Ok <==> regex_compiles(pattern@),
        r matches Ok(m) ==> m.source@ == pattern@,
{
    match Regex::new(pattern) {
        Ok(re) => Ok(Matcher { source: pattern.to_string(), re }),
        Err(e) => Err(e.to_string()),
    }
}

/// Relies on `regex::Regex::is_match`: whether the regex matches somewhere in `text`.
#[verifier::external_body]
fn regex_is_match(m: &Matcher, text: &str) -> (r: bool)
    ensures
        r == regex_accepts(m.source@, text@),
{
    m.re.is_match(text)
}

/// The regex that a shell expression stands for: the pattern anchored at both ends.
pub open spec fn anchored(pattern: Seq<char>) -> Seq<char> {
    "^"@ + pattern + "$"@
}

/// Whether `text` matches the shell expression `pattern`.
pub open spec fn glob_accepts(pattern: Seq<char>, text: Seq<char>) -> bool {
    regex_accepts(anchored(pattern), text)
}

/// One lookup in a cache that held the patterns `before` and holds `after`
/// once the lookup returned `r`.
pub open spec fn match_step(
    before: Seq<Seq<char>>,
    text: Seq<char>,
    pattern: Seq<char>,
    r: Result<bool, Error>,
    after: Seq<Seq<char>>,
) -> bool {
    if before.contains(pattern) {
        r == Ok::<bool, Error>(glob_accepts(pattern, text)) && after == before
    } else if regex_compiles(anchored(pattern)) {
        r == Ok::<bool, Error>(glob_accepts(pattern, text)) && after == before.push(pattern)
    } else {
        r matches Err(Error::JsError(_)) && after == before
    }
}

/// Compiled shell expressions, keyed by their raw pattern text, in the order in
/// which they were first used. Entries are never evicted.
pub struct WildcardCache {
    keys: Vec<String>,
    matchers: Vec<Matcher>,
}

impl View for WildcardCache {
    type V = Seq<Seq<char>>;

    closed spec fn view(&self) -> Seq<Seq<char>> {
        self.keys@.map_values(|k: String| k@)
    }
}

impl WildcardCache {
    /// Each cached matcher was compiled from its key, anchored.
    pub closed spec fn entries_wf(&self) -> bool {
        &&& self.keys@.len() == self.matchers@.len()
        &&& forall|i: int|
            0 <= i < self.keys@.len() ==> self.matchers@[i].source@ == anchored(
                #[trigger] self.keys@[i]@,
            )
    }

    pub open spec fn wf(&self) -> bool {
        self.entries_wf() && self@.no_duplicates()
    }

    pub fn new() -> (c: Self)
        ensures
            c.wf(),
            c@ == Seq::<Seq<char>>::empty(),
    {
        let c = WildcardCache { keys: Vec::new(), matchers: Vec::new() };
        assert(c@ =~= Seq::<Seq<char>>::empty());
        c
    }

    /// The number of cached patterns.
    pub fn len(&self) -> (n: usize)
        ensures
            n == self@.len(),
    {
        self.keys.len()
    }

    /// Whether `text` matches the shell expression `pattern`, compiling and
    /// caching the pattern on its first use.
    pub fn matches(&mut self, text: &str, pattern: &str) -> (r: Result<bool, Error>)
        requires
            old(self).wf(),
        ensures
            final(self).wf(),
            match_step(old(self)@, text@, pattern@, r, final(self)@),
    {
        let key = String::from_str(pattern);
        let mut i: usize = 0;
        while i < self.keys.len()
            invariant
                self.wf(),
                key@ == pattern@,
                i <= self.keys@.len(),
                forall|j: int| 0 <= j < i ==> self@[j] != pattern@,
            decreases self.keys@.len() - i,
        {
            if self.keys[i] == key {
                let found = regex_is_match(&self.matchers[i], text);
                proof {
                    assert(self@[i as int] == pattern@);
                }
                return Ok(found);
            }
            i = i + 1;
        }
        proof {
            assert(!self@.contains(pattern@));
        }
        let source = String::from_str("^").concat(pattern).concat("$");
        match compile_regex(source.as_str()) {
            Err(msg) => Err(Error::JsError(String::from_str("regex error: ").concat(msg.as_str()))),
            Ok(m) => {
                let found = regex_is_match(&m, text);
                let ghost before = self@;
                self.keys.push(key);
                self.matchers.push(m);
                proof {
                    assert(self@ =~= before.push(pattern@));
                    assert forall|a: int, b: int|
                        0 <= a < self@.len() && 0 <= b < self@.len() && a != b implies self@[a]
                        != self@[b] by {
                        if a < before.len() && b < before.len() {
                            assert(before[a] != before[b]);
                        }
                    }
                }
                Ok(found)
            },
        }
    }
}

/// Matching against the same pattern twice: the second lookup finds the pattern
/// cached, gives the same answer for the same text, leaves the cache as the
/// first one left it, and the pattern is held at most once.
pub proof fn lemma_repeat_match_stable(
    c0: Seq<Seq<char>>,
    c1: Seq<Seq<char>>,
    c2: Seq<Seq<char>>,
    text: Seq<char>,
    pattern: Seq<char>,
    r1: Result<bool, Error>,
    r2: Result<bool, Error>,
)
    requires
        c0.no_duplicates(),
        match_step(c0, text, pattern, r1, c1),
        match_step(c1, text, pattern, r2, c2),
    ensures
        r1 is Ok ==> r2 == r1,
        r1 is Err ==> r2 is Err,
        c2 == c1,
        c2.len() <= c0.len() + 1,
        c2.no_duplicates(),
{
    if !c0.contains(pattern) && regex_compiles(anchored(pattern)) {
        assert(c1.contains(pattern)) by {
            assert(c1[c0.len() as int] == pattern);
        }
        assert forall|a: int, b: int|
            0 <= a < c1.len() && 0 <= b < c1.len() && a != b implies c1[a] != c1[b] by {
            if a < c0.len() && b < c0.len() {
                assert(c0[a] != c0[b]);
            }
        }
    }
}

} // verus!
