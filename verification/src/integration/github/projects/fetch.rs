//! Reading the GitHub REST answers about a repository.

use vstd::prelude::*;
use crate::integration::github::json::{
    array_of, as_array, as_str, as_u64, at, at_key, get, is_obj, is_object, str_of,
    u64_of, Json,
};
use crate::integration::github::projects::model::{CommitInfo, CommitView, ReleaseInfo, ReleaseView};
use crate::sort::{filter_some, lemma_filter_some_prefix, truncated};
use crate::text::{
    byte_prefix, byte_prefix_len, first_line, first_line_len, push_char, str_eq, string_of,
    to_chars, trim, trim_range,
};

verus! {

broadcast use vstd::string::group_string_axioms;

/// Why fetching repository statistics failed.
#[derive(Debug)]
pub enum FetchError {
    /// The request failed or answered with an error status.
    Http(String),
    /// The answer lacked a field or had one of the wrong type or size.
    Parse(String),
}

/// The message a fetch error is reported with.
pub open spec fn error_message(e: FetchError) -> Seq<char> {
    match e {
        FetchError::Http(m) => "HTTP error: "@ + m@,
        FetchError::Parse(m) => "Parse error: "@ + m@,
    }
}

impl FetchError {
    /// The message this error is reported with.
    pub fn to_string(&self) -> (s: String)
        ensures
            s@ == error_message(*self),
    {
        match self {
            FetchError::Http(m) => {
                let mut s = "HTTP error: ".to_owned();
                s.append(m.as_str());
                s
            },
            FetchError::Parse(m) => {
                let mut s = "Parse error: ".to_owned();
                s.append(m.as_str());
                s
            },
        }
    }
}

/// A parse outcome agrees with its specification, whose error is the text
/// of a [`FetchError::Parse`].
pub open spec fn agrees<T>(r: Result<T, FetchError>, s: Result<T, Seq<char>>) -> bool {
    match r {
        Ok(t) => s matches Ok(u) && u == t,
        Err(e) => s matches Err(m) && e matches FetchError::Parse(msg) && msg@ == m,
    }
}

// ─── Repository counts ───────────────────────────────────────────────────────

/// What a failed conversion of an integer to a narrower type reports.
pub open spec fn out_of_range_text() -> Seq<char> {
    "out of range integral type conversion attempted"@
}

/// The count `key` of a repository answer as a `u32`, or the error text:
/// the field is missing, or it does not fit in 32 bits.
pub open spec fn count_field(slug: Seq<char>, body: Json, key: Seq<char>) -> Result<u32, Seq<char>> {
    match u64_of(get(body, key)) {
        None => Err(slug + ": "@ + key + " missing"@),
        Some(n) => if n > u32::MAX {
            Err(slug + ": "@ + key + " exceeds u32: "@ + out_of_range_text())
        } else {
            Ok(n as u32)
        },
    }
}

/// The `(stars, forks, open issues, watchers)` of a repository answer, or
/// the first field's error.
pub open spec fn repo_counts(slug: Seq<char>, body: Json) -> Result<(u32, u32, u32, u32), Seq<char>> {
    match count_field(slug, body, "stargazers_count"@) {
        Err(e) => Err(e),
        Ok(stars) => match count_field(slug, body, "forks_count"@) {
            Err(e) => Err(e),
            Ok(forks) => match count_field(slug, body, "open_issues_count"@) {
                Err(e) => Err(e),
                Ok(issues) => match count_field(slug, body, "watchers_count"@) {
                    Err(e) => Err(e),
                    Ok(watchers) => Ok((stars, forks, issues, watchers)),
                },
            },
        },
    }
}

fn read_count(slug: &str, body: &Json, key: &str) -> (r: Result<u32, FetchError>)
    ensures
        agrees(r, count_field(slug@, *body, key@)),
{
    match as_u64(at_key(Some(body), key)) {
        None => {
            let mut m = slug.to_owned();
            m.append(": ");
            m.append(key);
            m.append(" missing");
            Err(FetchError::Parse(m))
        },
        Some(n) => {
            if n > 0xffff_ffffu64 {
                let mut m = slug.to_owned();
                m.append(": ");
                m.append(key);
                m.append(" exceeds u32: ");
                m.append("out of range integral type conversion attempted");
                Err(FetchError::Parse(m))
            } else {
                Ok(n as u32)
            }
        },
    }
}

/// Reads the star, fork, open issue and watcher counts of a repository
/// answer.
pub fn parse_repo_response(slug: &str, body: &Json) -> (r: Result<(u32, u32, u32, u32), FetchError>)
    ensures
        agrees(r, repo_counts(slug@, *body)),
{
    let stars = match read_count(slug, body, "stargazers_count") {
        Ok(n) => n,
        Err(e) => return Err(e),
    };
    let forks = match read_count(slug, body, "forks_count") {
        Ok(n) => n,
        Err(e) => return Err(e),
    };
    let open_issues = match read_count(slug, body, "open_issues_count") {
        Ok(n) => n,
        Err(e) => return Err(e),
    };
    let watchers = match read_count(slug, body, "watchers_count") {
        Ok(n) => n,
        Err(e) => return Err(e),
    };
    Ok((stars, forks, open_issues, watchers))
}

// ─── Releases ────────────────────────────────────────────────────────────────

/// The release in a latest-release answer, when it has a tag, a publication
/// time and a URL.
pub open spec fn release_of(body: Json) -> Option<ReleaseView> {
    match (
        str_of(get(body, "tag_name"@)),
        str_of(get(body, "published_at"@)),
        str_of(get(body, "html_url"@)),
    ) {
        (Some(tag), Some(date), Some(url)) => Some(ReleaseView { tag, date, url }),
        _ => None,
    }
}

/// An optional release as an optional view.
pub open spec fn release_view(r: Option<ReleaseInfo>) -> Option<ReleaseView> {
    match r {
        Some(x) => Some(x@),
        None => None,
    }
}

/// Reads a latest-release answer.
pub fn parse_release_response(body: &Json) -> (r: Option<ReleaseInfo>)
    ensures
        release_view(r) == release_of(*body),
{
    let b = Some(body);
    let tag = match as_str(at_key(b, "tag_name")) {
        Some(t) => t.to_owned(),
        None => return None,
    };
    let date = match as_str(at_key(b, "published_at")) {
        Some(t) => t.to_owned(),
        None => return None,
    };
    let url = match as_str(at_key(b, "html_url")) {
        Some(t) => t.to_owned(),
        None => return None,
    };
    Some(ReleaseInfo { tag, date, url })
}

// ─── Commits ─────────────────────────────────────────────────────────────────

/// A commit whose GitHub author is an account of type `Bot`.
pub open spec fn is_bot(c: Json) -> bool {
    is_object(get(c, "author"@)) && str_of(at(get(c, "author"@), "type"@)) == Some("Bot"@)
}

/// The text, or the empty text when there is none.
pub open spec fn or_empty(o: Option<Seq<char>>) -> Seq<char> {
    match o {
        Some(t) => t,
        None => Seq::empty(),
    }
}

/// A SHA shortened to its first seven bytes (kept whole when shorter, or
/// when seven bytes would split a character).
pub open spec fn short_sha(full: Seq<char>) -> Seq<char> {
    match byte_prefix(full, 7) {
        Some(p) => p,
        None => full,
    }
}

/// A line cut to 72 characters, with `…` marking the cut.
pub open spec fn short_message(line: Seq<char>) -> Seq<char> {
    if line.len() > 72 {
        line.take(72).push('…')
    } else {
        line
    }
}

/// The author shown for a commit: the GitHub login when the commit is
/// linked to an account, else the git author name, else `unknown`.
pub open spec fn commit_author(c: Json) -> Seq<char> {
    match str_of(at(get(c, "author"@), "login"@)) {
        Some(login) => login,
        None => match str_of(at(at(get(c, "commit"@), "author"@), "name"@)) {
            Some(name) => name,
            None => "unknown"@,
        },
    }
}

/// A commit of a repository's commit list, unless it is a bot's or has no
/// SHA.
pub open spec fn commit_of(c: Json) -> Option<CommitView> {
    if is_bot(c) {
        None
    } else {
        match str_of(get(c, "sha"@)) {
            None => None,
            Some(full) => Some(
                CommitView {
                    sha: short_sha(full),
                    message: short_message(
                        trim(first_line(or_empty(str_of(at(get(c, "commit"@), "message"@))))),
                    ),
                    date: or_empty(str_of(at(at(get(c, "commit"@), "author"@), "date"@))),
                    author: commit_author(c),
                    url: or_empty(str_of(get(c, "html_url"@))),
                },
            ),
        }
    }
}

/// An optional commit as an optional view.
pub open spec fn commit_view(r: Option<CommitInfo>) -> Option<CommitView> {
    match r {
        Some(x) => Some(x@),
        None => None,
    }
}

fn text_or_empty(o: Option<&str>) -> (r: String)
    ensures
        r@ == or_empty(
            match o {
                Some(t) => Some(t@),
                None => None,
            },
        ),
{
    match o {
        Some(t) => t.to_owned(),
        None => String::new(),
    }
}

fn shorten_sha(full: &str) -> (r: String)
    ensures
        r@ == short_sha(full@),
{
    let chars = to_chars(full);
    match byte_prefix_len(&chars, 7) {
        Some(k) => {
            let s = string_of(&chars, 0, k);
            assert(chars@.subrange(0, k as int) =~= chars@.take(k as int));
            s
        },
        None => full.to_owned(),
    }
}

fn shorten_message(message: &str) -> (r: String)
    ensures
        r@ == short_message(trim(first_line(message@))),
{
    let chars = to_chars(message);
    let n = first_line_len(&chars);
    let (a, b) = trim_range(&chars, 0, n);
    assert(chars@.subrange(0, n as int) =~= chars@.take(n as int));
    if b - a > 72 {
        let mut s = string_of(&chars, a, a + 72);
        assert(chars@.subrange(a as int, a + 72) =~= chars@.subrange(a as int, b as int).take(72));
        push_char(&mut s, '…');
        s
    } else {
        string_of(&chars, a, b)
    }
}

/// Reads one entry of a repository's commit list; bots' commits and entries
/// without a SHA give `None`.
pub fn parse_commit(commit: &Json) -> (r: Option<CommitInfo>)
    ensures
        commit_view(r) == commit_of(*commit),
{
    let c = Some(commit);
    let author = at_key(c, "author");
    if is_obj(author) {
        match as_str(at_key(author, "type")) {
            Some(t) => {
                if str_eq(t, "Bot") {
                    return None;
                }
            },
            None => {},
        }
    }
    let full_sha = match as_str(at_key(c, "sha")) {
        Some(t) => t,
        None => return None,
    };
    let sha = shorten_sha(full_sha);
    let message_text = match as_str(at_key(at_key(c, "commit"), "message")) {
        Some(t) => t,
        None => "",
    };
    assert(message_text@ == or_empty(str_of(at(get(*commit, "commit"@), "message"@)))) by {
        reveal_strlit("");
    }
    let message = shorten_message(message_text);
    let date = text_or_empty(as_str(at_key(at_key(at_key(c, "commit"), "author"), "date")));
    let name = match as_str(at_key(author, "login")) {
        Some(login) => login.to_owned(),
        None => match as_str(at_key(at_key(at_key(c, "commit"), "author"), "name")) {
            Some(n) => n.to_owned(),
            None => "unknown".to_owned(),
        },
    };
    let url = text_or_empty(as_str(at_key(c, "html_url")));
    Some(CommitInfo { sha, message, date, author: name, url })
}

/// The commits of a commit list answer: the first five by people, in order.
pub open spec fn commits_of(body: Json) -> Seq<CommitView> {
    match array_of(Some(body)) {
        None => Seq::empty(),
        Some(a) => truncated(filter_some(a.map_values(|c: Json| commit_of(c))), 5),
    }
}

/// The commits as views.
pub open spec fn commit_views(s: Seq<CommitInfo>) -> Seq<CommitView> {
    s.map_values(|c: CommitInfo| c@)
}

/// Reads a repository's commit list: the first five commits made by people.
pub fn parse_commits_response(body: &Json) -> (r: Vec<CommitInfo>)
    ensures
        commit_views(r@) == commits_of(*body),
{
    let arr = match as_array(Some(body)) {
        Some(a) => a,
        None => {
            let v: Vec<CommitInfo> = Vec::new();
            assert(commit_views(v@) =~= Seq::<CommitView>::empty());
            return v;
        },
    };
    let ghost f = |c: Json| commit_of(c);
    let mut out: Vec<CommitInfo> = Vec::new();
    let mut i: usize = 0;
    assert(arr@.take(0).map_values(f) =~= Seq::<Option<CommitView>>::empty());
    assert(commit_views(out@) =~= Seq::<CommitView>::empty());
    while i < arr.len() && out.len() < 5
        invariant
            i <= arr@.len(),
            out@.len() <= 5,
            f == (|c: Json| commit_of(c)),
            commit_views(out@) == filter_some(arr@.take(i as int).map_values(f)),
        decreases arr.len() - i,
    {
        let ghost before = out@;
        let o = parse_commit(&arr[i]);
        proof {
            assert(arr@.take(i + 1).map_values(f).drop_last() =~= arr@.take(i as int).map_values(f));
        }
        match o {
            Some(x) => {
                out.push(x);
                assert(commit_views(out@) =~= commit_views(before).push(x@));
            },
            None => {},
        }
        i = i + 1;
    }
    proof {
        lemma_filter_some_prefix(arr@.map_values(f), i as int);
        assert(arr@.take(i as int).map_values(f) =~= arr@.map_values(f).take(i as int));
        if out@.len() < 5 {
            assert(arr@.take(i as int) =~= arr@);
        }
    }
    out
}

/// The number of open pull requests in a pull request list answer, at most
/// `u32::MAX`; zero when the answer is not a list.
pub open spec fn prs_count(body: Json) -> u32 {
    match array_of(Some(body)) {
        None => 0,
        Some(a) => if a.len() > u32::MAX {
            u32::MAX
        } else {
            a.len() as u32
        },
    }
}

/// Counts the entries of a pull request list answer.
pub fn parse_prs_count(body: &Json) -> (r: u32)
    ensures
        r == prs_count(*body),
{
    match as_array(Some(body)) {
        None => 0,
        Some(a) => if a.len() > 0xffff_ffffusize {
            0xffff_ffffu32
        } else {
            a.len() as u32
        },
    }
}

/// Law: a commit's message is the first line of its message, trimmed,
/// when that line has at most 72 characters; a longer line is cut to its
/// first 72 characters followed by `…`, so that the message without the
/// `…` is a prefix of the line.
pub proof fn lemma_commit_message_prefix(c: Json)
    ensures
        commit_of(c) matches Some(v) ==> {
            let line = trim(first_line(or_empty(str_of(at(get(c, "commit"@), "message"@)))));
            &&& line.len() <= 72 ==> v.message == line
            &&& line.len() > 72 ==> {
                &&& v.message.len() == 73
                &&& v.message.last() == '…'
                &&& forall|i: int| 0 <= i < 72 ==> #[trigger] v.message[i] == line[i]
            }
        },
{
}

} // verus!
