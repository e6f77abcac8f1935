//! Sessions and the two ways of looking them up: listing by a
//! case-insensitive filter and finding by name.
use vstd::prelude::*;
use vstd::string::*;

verus! {

/// A named shell command with the directory it runs in.
pub struct Session {
    pub name: String,
    /// Working directory; may start with the home marker.
    pub path: Option<String>,
    pub startup_command: String,
}

/// The text that `str::trim` leaves of `s`.
pub uninterp spec fn trimmed(s: Seq<char>) -> Seq<char>;

/// The text that `str::to_lowercase` makes of `s`.
pub uninterp spec fn lower_of(s: Seq<char>) -> Seq<char>;

/// Relies on `str::trim`: drops leading and trailing whitespace, a function
/// of the text alone.
#[verifier::external_body]
fn trim_text(s: &str) -> (r: &str)
    ensures
        r@ == trimmed(s@),
{
    s.trim()
}

/// Relies on `str::to_lowercase`: a function of the text alone, and the
/// empty text stays empty.
#[verifier::external_body]
fn lowercase(s: &str) -> (r: String)
    ensures
        r@ == lower_of(s@),
        s@.len() == 0 ==> r@.len() == 0,
{
    s.to_lowercase()
}

/// `n` occurs in `h` as a contiguous piece.
pub open spec fn has_infix(h: Seq<char>, n: Seq<char>) -> bool {
    exists|i: int| 0 <= i <= h.len() - n.len() && #[trigger] h.subrange(i, i + n.len()) == n
}

/// A session name passes the optional filter: its lowercase form holds the
/// lowercase form of the filter.
pub open spec fn name_matches(name: Seq<char>, filter: Option<Seq<char>>) -> bool {
    match filter {
        None => true,
        Some(f) => has_infix(lower_of(name), lower_of(f)),
    }
}

/// The names of the sessions that pass the filter, in their order.
pub open spec fn listed(ss: Seq<Session>, filter: Option<Seq<char>>) -> Seq<Seq<char>>
    decreases ss.len(),
{
    if ss.len() == 0 {
        Seq::empty()
    } else {
        let prev = listed(ss.drop_last(), filter);
        if name_matches(ss.last().name@, filter) {
            prev.push(ss.last().name@)
        } else {
            prev
        }
    }
}

/// A session's name matches the query once both are trimmed.
pub open spec fn named(s: Session, q: Seq<char>) -> bool {
    trimmed(s.name@) == trimmed(q)
}

/// `i` is the first session named `q`.
pub open spec fn is_first_named(ss: Seq<Session>, q: Seq<char>, i: int) -> bool {
    &&& 0 <= i < ss.len()
    &&& named(ss[i], q)
    &&& forall|j: int| 0 <= j < i ==> !named(#[trigger] ss[j], q)
}

/// No session is named `q`.
pub open spec fn none_named(ss: Seq<Session>, q: Seq<char>) -> bool {
    forall|j: int| 0 <= j < ss.len() ==> !named(#[trigger] ss[j], q)
}

/// Whether `a` and `b` hold the same text.
pub fn same_text(a: &str, b: &str) -> (r: bool)
    ensures
        r == (a@ == b@),
{
    let n = a.unicode_len();
    if n != b.unicode_len() {
        return false;
    }
    let mut i: usize = 0;
    while i < n
        invariant
            n == a@.len(),
            n == b@.len(),
            i <= n,
            forall|k: int| 0 <= k < i ==> a@[k] == b@[k],
        decreases n - i,
    {
        if a.get_char(i) != b.get_char(i) {
            return false;
        }
        i = i + 1;
    }
    assert(a@ =~= b@);
    true
}

/// Whether `n` occurs in `h`.
pub fn contains_text(h: &str, n: &str) -> (r: bool)
    ensures
        r == has_infix(h@, n@),
{
    let hl = h.unicode_len();
    let nl = n.unicode_len();
    if nl > hl {
        return false;
    }
    if nl == 0 {
        assert(h@.subrange(0int, 0int + n@.len()) =~= n@);
        return true;
    }
    let mut i: usize = 0;
    while i <= hl - nl
        invariant
            hl == h@.len(),
            nl == n@.len(),
            0 < nl <= hl,
            i <= hl - nl + 1,
            forall|k: int| 0 <= k < i ==> #[trigger] h@.subrange(k, k + nl) != n@,
        decreases hl - nl + 1 - i,
    {
        let mut j: usize = 0;
        let mut same = true;
        while j < nl
            invariant
                hl == h@.len(),
                nl == n@.len(),
                i + nl <= hl,
                j <= nl,
                same ==> forall|k: int| 0 <= k < j ==> h@[i + k] == n@[k],
                !same ==> h@.subrange(i as int, i + nl) != n@,
            decreases nl - j,
        {
            if h.get_char(i + j) != n.get_char(j) {
                assert(h@.subrange(i as int, i + nl)[j as int] != n@[j as int]);
                same = false;
            }
            j = j + 1;
        }
        if same {
            assert(h@.subrange(i as int, i + nl) =~= n@);
            return true;
        }
        i = i + 1;
    }
    assert forall|k: int| 0 <= k <= hl - nl implies #[trigger] h@.subrange(k, k + nl) != n@ by {}
    false
}

/// The names of the sessions whose lowercase name holds the lowercase
/// filter, in registry order; every name when there is no filter.
pub fn list_sessions(sessions: &[Session], filter: Option<&str>) -> (r: Vec<String>)
    ensures
        r@.map_values(|s: String| s@) == listed(sessions@, match filter {
            Some(f) => Some(f@),
            None => None,
        }),
        filter matches Some(f) && f@.len() == 0 ==> r@.map_values(|s: String| s@) == sessions@.map_values(
            |s: Session| s.name@,
        ),
{
    let ghost fl = match filter {
        Some(f) => Some(f@),
        None => None,
    };
    let lowered: Option<String> = match filter {
        Some(f) => Some(lowercase(f)),
        None => None,
    };
    let mut r: Vec<String> = Vec::new();
    let mut i: usize = 0;
    while i < sessions.len()
        invariant
            i <= sessions@.len(),
            lowered matches Some(l) ==> fl matches Some(f) && l@ == lower_of(f),
            lowered is None ==> fl is None,
            r@.map_values(|s: String| s@) == listed(sessions@.subrange(0, i as int), fl),
        decreases sessions@.len() - i,
    {
        let s = &sessions[i];
        let keep = match &lowered {
            Some(l) => {
                let name = lowercase(s.name.as_str());
                contains_text(name.as_str(), l.as_str())
            },
            None => true,
        };
        assert(sessions@.subrange(0, i + 1).drop_last() =~= sessions@.subrange(0, i as int));
        if keep {
            r.push(s.name.clone());
        }
        assert(r@.map_values(|s: String| s@) =~= listed(sessions@.subrange(0, i + 1), fl));
        i = i + 1;
    }
    assert(sessions@.subrange(0, i as int) =~= sessions@);
    proof {
        if let Some(f) = fl {
            if f.len() == 0 {
                lemma_empty_filter_lists_all(sessions@, f);
            }
        }
    }
    r
}

/// A filter whose lowercase form is empty, as that of the empty filter is,
/// lets every name through, in registry order.
pub proof fn lemma_empty_filter_lists_all(ss: Seq<Session>, f: Seq<char>)
    requires
        lower_of(f).len() == 0,
    ensures
        listed(ss, Some(f)) == ss.map_values(|s: Session| s.name@),
    decreases ss.len(),
{
    if ss.len() > 0 {
        lemma_empty_filter_lists_all(ss.drop_last(), f);
        let l = lower_of(ss.last().name@);
        assert(l.subrange(0int, 0int + lower_of(f).len()) =~= lower_of(f));
        assert(ss.map_values(|s: Session| s.name@) =~= ss.drop_last().map_values(|s: Session| s.name@).push(ss.last().name@));
    } else {
        assert(ss.map_values(|s: Session| s.name@) =~= Seq::<Seq<char>>::empty());
    }
}

/// Position of the first session whose trimmed name equals the trimmed
/// query, if any.
pub fn find_session_index(sessions: &[Session], name: &str) -> (r: Option<usize>)
    ensures
        match r {
            Some(i) => is_first_named(sessions@, name@, i as int),
            None => none_named(sessions@, name@),
        },
{
    let q = trim_text(name);
    let mut i: usize = 0;
    while i < sessions.len()
        invariant
            i <= sessions@.len(),
            q@ == trimmed(name@),
            forall|j: int| 0 <= j < i ==> !named(#[trigger] sessions@[j], name@),
        decreases sessions@.len() - i,
    {
        let t = trim_text(sessions[i].name.as_str());
        if same_text(t, q) {
            return Some(i);
        }
        i = i + 1;
    }
    None
}

/// The first session whose trimmed name equals the trimmed query, if any.
pub fn find_session<'a>(sessions: &'a [Session], name: &str) -> (r: Option<&'a Session>)
    ensures
        match r {
            Some(s) => exists|i: int| is_first_named(sessions@, name@, i) && *s == sessions@[i],
            None => none_named(sessions@, name@),
        },
{
    match find_session_index(sessions, name) {
        Some(i) => Some(&sessions[i]),
        None => None,
    }
}

} // verus!
