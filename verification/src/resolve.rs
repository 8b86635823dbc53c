use vstd::prelude::*;
use vstd::string::StrSliceExecFns;

verus! {

/// Why target resolution stopped.
#[derive(Debug, Clone, Copy, PartialEq, Eq, Structural)]
pub enum ResolveError {
    /// No running application matched the sought name.
    NoApplicationFound,
    /// A console answer was neither yes nor no.
    InvalidResponse,
}

/// What `str::to_lowercase` returns for a string: a function of the
/// characters alone, left abstract here.
pub uninterp spec fn lower_of(s: Seq<char>) -> Seq<char>;

/// What `str::trim` returns for a string: a function of the characters
/// alone, left abstract here.
pub uninterp spec fn trim_of(s: Seq<char>) -> Seq<char>;

/// Whether a string is a syntactically valid D-Bus bus name (unique or
/// well-known form): a function of the characters alone, left abstract here.
pub uninterp spec fn is_bus_name(s: Seq<char>) -> bool;

/// Relies on `str::to_lowercase`: its result is a locale-independent
/// function of the input characters alone.
#[verifier::external_body]
fn lowercase(s: &str) -> (r: String)
    ensures
        r@ == lower_of(s@),
{
    s.to_lowercase()
}

/// Relies on `str::trim`: its result is a function of the input characters
/// alone.
#[verifier::external_body]
fn trim_spaces(s: &str) -> (r: &str)
    ensures
        r@ == trim_of(s@),
{
    s.trim()
}

/// Relies on `zbus::names::BusName::try_from`, which accepts exactly the
/// syntactically valid D-Bus bus names: a pure check of the characters alone.
#[verifier::external_body]
fn bus_name_is_valid(s: &str) -> (r: bool)
    ensures
        r == is_bus_name(s@),
{
    zbus::names::BusName::try_from(s).is_ok()
}

/// The characters of a string, one by one.
fn chars_of(s: &str) -> (v: Vec<char>)
    ensures
        v@ == s@,
{
    let n = s.unicode_len();
    let mut v: Vec<char> = Vec::new();
    let mut i: usize = 0;
    while i < n
        invariant
            n == s@.len(),
            0 <= i <= n,
            v@ == s@.subrange(0, i as int),
        decreases n - i,
    {
        v.push(s.get_char(i));
        proof {
            assert(v@ =~= s@.subrange(0, i + 1));
        }
        i = i + 1;
    }
    proof {
        assert(v@ =~= s@);
    }
    v
}

/// Character-exact string equality.
pub(crate) fn str_eq(a: &str, b: &str) -> (r: bool)
    ensures
        r == (a@ == b@),
{
    let la = a.unicode_len();
    let lb = b.unicode_len();
    if la != lb {
        proof {
            if a@ == b@ {
                assert(a@.len() == b@.len());
            }
        }
        return false;
    }
    let mut i: usize = 0;
    while i < la
        invariant
            la == a@.len(),
            lb == b@.len(),
            la == lb,
            0 <= i <= la,
            forall|j: int| 0 <= j < i ==> a@[j] == b@[j],
        decreases la - i,
    {
        if a.get_char(i) != b.get_char(i) {
            proof {
                if a@ == b@ {
                    assert(a@[i as int] == b@[i as int]);
                }
            }
            return false;
        }
        i = i + 1;
    }
    proof {
        assert(a@ =~= b@);
    }
    true
}

/// The needle occurs in the haystack starting at position `i`.
pub open spec fn contains_at(hay: Seq<char>, needle: Seq<char>, i: int) -> bool {
    &&& 0 <= i
    &&& i + needle.len() <= hay.len()
    &&& hay.subrange(i, i + needle.len()) == needle
}

/// The needle occurs somewhere in the haystack.
pub open spec fn seq_contains(hay: Seq<char>, needle: Seq<char>) -> bool {
    exists|i: int| contains_at(hay, needle, i)
}

/// Character-exact substring search.
fn str_contains(hay: &str, needle: &str) -> (r: bool)
    ensures
        r == seq_contains(hay@, needle@),
{
    let h = chars_of(hay);
    let n = chars_of(needle);
    if n.len() > h.len() {
        proof {
            if seq_contains(hay@, needle@) {
                let k = choose|k: int| contains_at(hay@, needle@, k);
            }
        }
        return false;
    }
    if n.len() == 0 {
        proof {
            assert(hay@.subrange(0, 0) =~= needle@);
            assert(contains_at(hay@, needle@, 0));
        }
        return true;
    }
    let mut i: usize = 0;
    while i <= h.len() - n.len()
        invariant
            h@ == hay@,
            n@ == needle@,
            1 <= n.len() <= h.len(),
            0 <= i <= h.len() - n.len() + 1,
            forall|k: int| 0 <= k < i ==> !contains_at(hay@, needle@, k),
        decreases h.len() - n.len() - i + 1,
    {
        let mut j: usize = 0;
        let mut hit = true;
        while j < n.len()
            invariant
                h@ == hay@,
                n@ == needle@,
                n.len() <= h.len(),
                0 <= i <= h.len() - n.len(),
                0 <= j <= n.len(),
                hit ==> forall|l: int| 0 <= l < j ==> h@[i + l] == n@[l],
                !hit ==> !contains_at(hay@, needle@, i as int),
            decreases n.len() - j,
        {
            if h[i + j] != n[j] {
                proof {
                    if contains_at(hay@, needle@, i as int) {
                        let sub = hay@.subrange(i as int, i + needle@.len());
                        assert(sub[j as int] == hay@[i + j]);
                    }
                }
                hit = false;
            }
            j = j + 1;
        }
        if hit {
            proof {
                assert(hay@.subrange(i as int, i + needle@.len()) =~= needle@);
                assert(contains_at(hay@, needle@, i as int));
            }
            return true;
        }
        i = i + 1;
    }
    proof {
        if seq_contains(hay@, needle@) {
            let k = choose|k: int| contains_at(hay@, needle@, k);
            assert(!contains_at(hay@, needle@, k));
        }
    }
    false
}

/// How a running application's name relates to the sought name.
#[derive(Debug, Clone, Copy, PartialEq, Eq, Structural)]
pub enum MatchKind {
    /// The names are identical.
    Exact,
    /// The names agree once case is folded.
    CaseInsensitive,
    /// The folded sought name occurs inside the folded application name.
    Partial,
    /// None of the above.
    NoMatch,
}

/// Classifies a candidate application name against the sought name: an exact
/// match is taken as is, a case-insensitive or partial match is offered to
/// the user, anything else is skipped.
pub fn classify_match(candidate: &str, sought: &str) -> (k: MatchKind)
    ensures
        (k == MatchKind::Exact) == (candidate@ == sought@),
        (k == MatchKind::CaseInsensitive) == (candidate@ != sought@ && lower_of(candidate@)
            == lower_of(sought@)),
        (k == MatchKind::Partial) == (candidate@ != sought@ && lower_of(candidate@) != lower_of(
            sought@,
        ) && seq_contains(lower_of(candidate@), lower_of(sought@))),
        (k == MatchKind::NoMatch) == (candidate@ != sought@ && lower_of(candidate@) != lower_of(
            sought@,
        ) && !seq_contains(lower_of(candidate@), lower_of(sought@))),
{
    if str_eq(candidate, sought) {
        return MatchKind::Exact;
    }
    let lc = lowercase(candidate);
    let ls = lowercase(sought);
    if str_eq(lc.as_str(), ls.as_str()) {
        return MatchKind::CaseInsensitive;
    }
    if str_contains(lc.as_str(), ls.as_str()) {
        return MatchKind::Partial;
    }
    MatchKind::NoMatch
}

/// Whether the resolution policy asks the user before adding a match of this
/// kind: only inexact matches need confirmation.
pub fn needs_confirmation(k: MatchKind) -> (b: bool)
    ensures
        b == (k == MatchKind::CaseInsensitive || k == MatchKind::Partial),
{
    match k {
        MatchKind::CaseInsensitive | MatchKind::Partial => true,
        _ => false,
    }
}

/// Interprets a console answer to a yes/no question: after trimming and case
/// folding, `y`, `yes` and an empty answer approve; `n` and `no` decline;
/// anything else is an invalid response.
pub fn interpret_yn(raw: &str) -> (r: Result<bool, ResolveError>)
    ensures
        ({
            let ans = lower_of(trim_of(raw@));
            if ans == "y"@ || ans == "yes"@ || ans.len() == 0 {
                r == Ok::<bool, ResolveError>(true)
            } else if ans == "n"@ || ans == "no"@ {
                r == Ok::<bool, ResolveError>(false)
            } else {
                r == Err::<bool, ResolveError>(ResolveError::InvalidResponse)
            }
        }),
{
    let trimmed = trim_spaces(raw);
    let low = lowercase(trimmed);
    let ans = low.as_str();
    if str_eq(ans, "y") || str_eq(ans, "yes") || ans.is_empty() {
        Ok(true)
    } else if str_eq(ans, "n") || str_eq(ans, "no") {
        Ok(false)
    } else {
        Err(ResolveError::InvalidResponse)
    }
}

/// A resolved target: the application's human-readable label and the bus
/// endpoint its tree is served from.
#[derive(Debug, Clone, PartialEq, Eq)]
pub struct TargetMatch {
    pub label: String,
    pub endpoint: String,
}

/// Where a traversal should start, read off the command-line argument.
#[derive(Debug, Clone, PartialEq, Eq)]
pub enum TargetQuery {
    /// No name given: snapshot the well-known accessibility registry.
    Registry,
    /// The name is itself a valid bus name: snapshot that bus peer.
    Bus(String),
    /// Anything else: search running applications for the name.
    Application(String),
}

/// The default target when none is named: the accessibility registry's
/// well-known bus name.
pub fn registry_well_known_name() -> (r: &'static str)
    ensures
        r@ == "org.a11y.atspi.Registry"@,
{
    "org.a11y.atspi.Registry"
}

/// Maps the command-line target argument to a plan: an empty name selects
/// the well-known registry, a syntactically valid bus name is used directly,
/// and anything else is searched for as an application name.
pub fn parse_bus_name(name: String) -> (q: TargetQuery)
    ensures
        name@.len() == 0 ==> q == TargetQuery::Registry,
        name@.len() > 0 && is_bus_name(name@) ==> (q matches TargetQuery::Bus(b) && b@ == name@),
        name@.len() > 0 && !is_bus_name(name@) ==> (q matches TargetQuery::Application(a) && a@
            == name@),
{
    if name.as_str().is_empty() {
        return TargetQuery::Registry;
    }
    if bus_name_is_valid(name.as_str()) {
        TargetQuery::Bus(name)
    } else {
        TargetQuery::Application(name)
    }
}

/// Target resolution that found nothing is fatal: an empty match list
/// becomes the `NoApplicationFound` error, a non-empty one is passed on
/// unchanged.
pub fn require_matches(found: Vec<TargetMatch>) -> (r: Result<Vec<TargetMatch>, ResolveError>)
    ensures
        match r {
            Ok(v) => found@.len() > 0 && v == found,
            Err(e) => e == ResolveError::NoApplicationFound && found@.len() == 0,
        },
{
    if found.len() == 0 {
        Err(ResolveError::NoApplicationFound)
    } else {
        Ok(found)
    }
}

} // verus!
