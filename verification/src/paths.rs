//! Path text split into components as `std::path::Path::components` splits a
//! Unix path, and the session and project names read from a log's path.
use vstd::prelude::*;
use vstd::string::*;
use crate::text::str_eq;

verus! {

/// The views of a sequence of strings.
pub open spec fn strings_view(v: Seq<String>) -> Seq<Seq<char>> {
    v.map_values(|s: String| s@)
}

/// A segment that `Path::components` yields as a `Normal` component or
/// `ParentDir`: non-empty and not `.`.
pub open spec fn is_kept_segment(seg: Seq<char>) -> bool {
    seg.len() > 0 && seg != seq!['.']
}

/// Appends the segment `cur` to `done` when it is kept.
pub open spec fn flush_segment(done: Seq<Seq<char>>, cur: Seq<char>) -> Seq<Seq<char>> {
    if is_kept_segment(cur) {
        done.push(cur)
    } else {
        done
    }
}

/// Splitting `s` at `/`: the kept segments closed so far and the open one.
pub open spec fn segment_state(s: Seq<char>) -> (Seq<Seq<char>>, Seq<char>)
    decreases s.len(),
{
    if s.len() == 0 {
        (Seq::empty(), Seq::empty())
    } else {
        let prev = segment_state(s.drop_last());
        if s.last() == '/' {
            (flush_segment(prev.0, prev.1), Seq::empty())
        } else {
            (prev.0, prev.1.push(s.last()))
        }
    }
}

/// The component that leads a path: `/` for an absolute path, `.` for a
/// path that is `.` or starts with `./`.
pub open spec fn lead_components(p: Seq<char>) -> Seq<Seq<char>> {
    if p.len() > 0 && p[0] == '/' {
        seq![seq!['/']]
    } else if p.len() > 0 && p[0] == '.' && (p.len() == 1 || p[1] == '/') {
        seq![seq!['.']]
    } else {
        Seq::empty()
    }
}

/// The components of a Unix path, each as the text `as_os_str` gives:
/// `/` for the root, `.` for a leading current-directory mark, then the
/// non-empty segments other than `.`.
pub open spec fn path_components(p: Seq<char>) -> Seq<Seq<char>> {
    let st = segment_state(p);
    lead_components(p) + flush_segment(st.0, st.1)
}

/// Moves the segment `path[start..end]` into `out` when it is kept.
fn push_segment(out: &mut Vec<String>, path: &str, start: usize, end: usize)
    requires
        start <= end <= path@.len(),
    ensures
        strings_view(final(out)@) == flush_segment(
            strings_view(old(out)@),
            path@.subrange(start as int, end as int),
        ),
{
    let seg = path.substring_char(start, end);
    proof {
        reveal_strlit(".");
        assert("."@ =~= seq!['.']);
    }
    if end > start && !str_eq(seg, ".") {
        out.push(String::from_str(seg));
        assert(strings_view(out@) =~= strings_view(old(out)@).push(seg@));
    } else {
        assert(seg@.len() == 0 || seg@ == seq!['.']);
    }
}

/// The components of `path` (see `path_components`).
pub fn components(path: &str) -> (comps: Vec<String>)
    ensures
        strings_view(comps@) == path_components(path@),
{
    let n = path.unicode_len();
    let mut comps: Vec<String> = Vec::new();
    proof {
        reveal_strlit("/");
        reveal_strlit(".");
        assert("/"@ =~= seq!['/']);
        assert("."@ =~= seq!['.']);
    }
    if n > 0 && path.get_char(0) == '/' {
        comps.push(String::from_str("/"));
    } else if n > 0 && path.get_char(0) == '.' && (n == 1 || path.get_char(1) == '/') {
        comps.push(String::from_str("."));
    }
    assert(strings_view(comps@) =~= lead_components(path@));
    let mut body: Vec<String> = Vec::new();
    let mut start: usize = 0;
    let mut i: usize = 0;
    assert(path@.take(0) =~= Seq::<char>::empty());
    while i < n
        invariant
            n == path@.len(),
            start <= i <= n,
            segment_state(path@.take(i as int)) == (
                strings_view(body@),
                path@.subrange(start as int, i as int),
            ),
        decreases n - i,
    {
        let c = path.get_char(i);
        assert(path@.take(i + 1).drop_last() =~= path@.take(i as int));
        assert(path@.take(i + 1).last() == c);
        if c == '/' {
            push_segment(&mut body, path, start, i);
            start = i + 1;
            assert(path@.subrange(start as int, (i + 1) as int) =~= Seq::<char>::empty());
        } else {
            assert(path@.subrange(start as int, (i + 1) as int) =~= path@.subrange(
                start as int,
                i as int,
            ).push(c));
        }
        i = i + 1;
    }
    assert(path@.take(n as int) =~= path@);
    push_segment(&mut body, path, start, n);
    let ghost lead = strings_view(comps@);
    let ghost tail = strings_view(body@);
    comps.append(&mut body);
    assert(strings_view(comps@) =~= lead + tail);
    comps
}

/// The first position of `x` in `s`.
pub open spec fn first_position<A>(s: Seq<A>, x: A) -> Option<int>
    decreases s.len(),
{
    if s.len() == 0 {
        None
    } else if s[0] == x {
        Some(0)
    } else {
        match first_position(s.drop_first(), x) {
            Some(i) => Some(i + 1),
            None => None,
        }
    }
}

proof fn lemma_first_position<A>(s: Seq<A>, x: A)
    ensures
        first_position(s, x) matches Some(i) ==> 0 <= i < s.len() && s[i] == x && forall|j: int|
            0 <= j < i ==> s[j] != x,
        first_position(s, x) is None ==> forall|j: int| 0 <= j < s.len() ==> s[j] != x,
    decreases s.len(),
{
    if s.len() > 0 && s[0] != x {
        lemma_first_position(s.drop_first(), x);
        assert forall|j: int| 1 <= j < s.len() implies s[j] == s.drop_first()[j - 1] by {}
    }
}

/// The last position of `x` in `s`.
pub open spec fn last_position<A>(s: Seq<A>, x: A) -> Option<int>
    decreases s.len(),
{
    if s.len() == 0 {
        None
    } else if s.last() == x {
        Some(s.len() - 1)
    } else {
        last_position(s.drop_last(), x)
    }
}

pub proof fn lemma_last_position<A>(s: Seq<A>, x: A)
    ensures
        last_position(s, x) matches Some(i) ==> 0 <= i < s.len() && s[i] == x && forall|j: int|
            i < j < s.len() ==> s[j] != x,
        last_position(s, x) is None ==> forall|j: int| 0 <= j < s.len() ==> s[j] != x,
    decreases s.len(),
{
    if s.len() > 0 && s.last() != x {
        lemma_last_position(s.drop_last(), x);
        assert forall|j: int| 0 <= j < s.len() - 1 implies s[j] == s.drop_last()[j] by {}
    }
}

/// The position of the first `x` in `s`, found by scanning.
pub fn find_first_char(s: &str, x: char) -> (pos: Option<usize>)
    ensures
        match pos {
            Some(i) => first_position(s@, x) == Some(i as int),
            None => first_position(s@, x) is None,
        },
{
    let n = s.unicode_len();
    let mut i: usize = 0;
    proof {
        lemma_first_position(s@, x);
    }
    while i < n
        invariant
            n == s@.len(),
            i <= n,
            forall|j: int| 0 <= j < i ==> s@[j] != x,
        decreases n - i,
    {
        if s.get_char(i) == x {
            proof {
                lemma_first_position(s@, x);
                if first_position(s@, x) is None {
                    assert(s@[i as int] == x);
                }
            }
            return Some(i);
        }
        i = i + 1;
    }
    None
}

/// The position of the last `x` in `s`, found by scanning from the end.
pub fn find_last_char(s: &str, x: char) -> (pos: Option<usize>)
    ensures
        match pos {
            Some(i) => last_position(s@, x) == Some(i as int),
            None => last_position(s@, x) is None,
        },
{
    let n = s.unicode_len();
    let mut i: usize = n;
    proof {
        lemma_last_position(s@, x);
    }
    while i > 0
        invariant
            n == s@.len(),
            i <= n,
            forall|j: int| i <= j < n ==> s@[j] != x,
        decreases i,
    {
        if s.get_char(i - 1) == x {
            proof {
                lemma_last_position(s@, x);
                if last_position(s@, x) is None {
                    assert(s@[i - 1] == x);
                } else {
                    let k = last_position(s@, x)->0;
                    if k < i - 1 {
                        assert(s@[i - 1] != x);
                    } else if k > i - 1 {
                        assert(s@[k] != x);
                    }
                }
            }
            return Some(i - 1);
        }
        i = i - 1;
    }
    None
}

/// The text `unknown`, used where a name cannot be read from a path.
pub open spec fn unknown_text() -> Seq<char> {
    seq!['u', 'n', 'k', 'n', 'o', 'w', 'n']
}

/// The text `sessions`, the directory that holds one directory per project.
pub open spec fn sessions_text() -> Seq<char> {
    seq!['s', 'e', 's', 's', 'i', 'o', 'n', 's']
}

/// `Path::file_name`: the last component when it is a name (not the root,
/// a leading `.` or `..`).
pub open spec fn file_name(p: Seq<char>) -> Option<Seq<char>> {
    let c = path_components(p);
    if c.len() > 0 && c.last() != seq!['/'] && c.last() != seq!['.'] && c.last() != seq!['.', '.'] {
        Some(c.last())
    } else {
        None
    }
}

/// `Path::file_stem` of a file name: the text before its last `.`, unless
/// that `.` is the first character.
pub open spec fn file_stem(name: Seq<char>) -> Seq<char> {
    match last_position(name, '.') {
        Some(i) => if i == 0 {
            name
        } else {
            name.take(i)
        },
        None => name,
    }
}

/// The text after the first `_`, or all of `s` when it has none.
pub open spec fn after_first_underscore(s: Seq<char>) -> Seq<char> {
    match first_position(s, '_') {
        Some(i) => s.skip(i + 1),
        None => s,
    }
}

/// The session id of a log file: its file stem, without anything up to the
/// first `_`; `unknown` when the path names no file.
pub open spec fn session_id_of(p: Seq<char>) -> Seq<char> {
    let stem = match file_name(p) {
        Some(n) => file_stem(n),
        None => unknown_text(),
    };
    after_first_underscore(stem)
}

/// The project of a log file: the component right after the first
/// `sessions` component; `unknown` when there is none.
pub open spec fn project_of(p: Seq<char>) -> Seq<char> {
    let c = path_components(p);
    match first_position(c, sessions_text()) {
        Some(i) => if i + 1 < c.len() {
            c[i + 1]
        } else {
            unknown_text()
        },
        None => unknown_text(),
    }
}

/// The project of a log file under a store root: the first component below
/// the root, else as `project_of`.
pub open spec fn project_for_store_of(p: Seq<char>, root: Seq<char>) -> Seq<char> {
    let pc = path_components(p);
    let rc = path_components(root);
    if rc.len() < pc.len() && pc.take(rc.len() as int) == rc {
        pc[rc.len() as int]
    } else {
        project_of(p)
    }
}

fn unknown_string() -> (s: String)
    ensures
        s@ == unknown_text(),
{
    proof {
        reveal_strlit("unknown");
        assert("unknown"@ =~= unknown_text());
    }
    String::from_str("unknown")
}

/// The session id of the log file at `path` (see `session_id_of`): for
/// `.../agent_session-a.jsonl` it is `session-a`.
pub fn extract_session_id(path: &str) -> (id: String)
    ensures
        id@ == session_id_of(path@),
{
    let comps = components(path);
    let k = comps.len();
    proof {
        reveal_strlit("/");
        reveal_strlit(".");
        reveal_strlit("..");
        assert("/"@ =~= seq!['/']);
        assert("."@ =~= seq!['.']);
        assert(".."@ =~= seq!['.', '.']);
    }
    let named = k > 0 && !str_eq(comps[k - 1].as_str(), "/") && !str_eq(comps[k - 1].as_str(), ".")
        && !str_eq(comps[k - 1].as_str(), "..");
    assert(k > 0 ==> strings_view(comps@).last() == comps@[k - 1]@);
    let stem: String = if named {
        let name = comps[k - 1].as_str();
        proof {
            lemma_last_position(name@, '.');
        }
        match find_last_char(name, '.') {
            Some(i) => {
                if i == 0 {
                    String::from_str(name)
                } else {
                    String::from_str(name.substring_char(0, i))
                }
            },
            None => String::from_str(name),
        }
    } else {
        unknown_string()
    };
    let stem_str = stem.as_str();
    proof {
        lemma_first_position(stem@, '_');
    }
    match find_first_char(stem_str, '_') {
        Some(i) => {
            proof {
                lemma_first_position(stem_str@, '_');
            }
            let n = stem_str.unicode_len();
            String::from_str(stem_str.substring_char(i + 1, n))
        },
        None => stem,
    }
}

/// The position of the first component equal to `sessions`.
fn sessions_position(comps: &Vec<String>) -> (pos: Option<usize>)
    ensures
        match pos {
            Some(i) => first_position(strings_view(comps@), sessions_text()) == Some(i as int),
            None => first_position(strings_view(comps@), sessions_text()) is None,
        },
{
    proof {
        reveal_strlit("sessions");
        assert("sessions"@ =~= sessions_text());
        lemma_first_position(strings_view(comps@), sessions_text());
    }
    let mut i: usize = 0;
    while i < comps.len()
        invariant
            i <= comps@.len(),
            forall|j: int| 0 <= j < i ==> comps@[j]@ != sessions_text(),
            "sessions"@ == sessions_text(),
        decreases comps@.len() - i,
    {
        if str_eq(comps[i].as_str(), "sessions") {
            proof {
                let v = strings_view(comps@);
                lemma_first_position(v, sessions_text());
                if first_position(v, sessions_text()) is None {
                    assert(v[i as int] == sessions_text());
                } else {
                    let f = first_position(v, sessions_text())->0;
                    if f < i {
                        assert(v[f] == comps@[f]@);
                    } else if f > i {
                        assert(v[i as int] == sessions_text());
                    }
                }
            }
            return Some(i);
        }
        i = i + 1;
    }
    proof {
        let v = strings_view(comps@);
        lemma_first_position(v, sessions_text());
        if first_position(v, sessions_text()) is Some {
            let f = first_position(v, sessions_text())->0;
            assert(v[f] == comps@[f]@);
        }
    }
    None
}

/// The project of the log file at `path` (see `project_of`): for
/// `.../sessions/project-a/file.jsonl` it is `project-a`.
pub fn extract_project(path: &str) -> (project: String)
    ensures
        project@ == project_of(path@),
{
    let comps = components(path);
    proof {
        lemma_first_position(strings_view(comps@), sessions_text());
    }
    match sessions_position(&comps) {
        Some(i) => {
            if i < comps.len() - 1 {
                comps[i + 1].clone()
            } else {
                unknown_string()
            }
        },
        None => unknown_string(),
    }
}

/// The project of the log file at `path` in a store rooted at `store_root`
/// (see `project_for_store_of`).
pub fn extract_project_for_store(path: &str, store_root: &str) -> (project: String)
    ensures
        project@ == project_for_store_of(path@, store_root@),
{
    let pc = components(path);
    let rc = components(store_root);
    if rc.len() < pc.len() {
        let mut i: usize = 0;
        let mut same = true;
        while i < rc.len()
            invariant
                rc@.len() < pc@.len(),
                i <= rc@.len(),
                same == (forall|j: int| 0 <= j < i ==> pc@[j]@ == rc@[j]@),
            decreases rc@.len() - i,
        {
            if !(pc[i] == rc[i]) {
                same = false;
            }
            i = i + 1;
        }
        proof {
            let pv = strings_view(pc@);
            let rv = strings_view(rc@);
            if same {
                assert(pv.take(rv.len() as int) =~= rv);
            } else {
                let j = choose|j: int| 0 <= j < rc@.len() && pc@[j]@ != rc@[j]@;
                assert(pv.take(rv.len() as int)[j] != rv[j]);
            }
        }
        if same {
            return pc[rc.len()].clone();
        }
    }
    extract_project(path)
}

} // verus!
