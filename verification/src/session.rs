//! Antigravity CLI sessions: the conversation history (`history.jsonl`) and
//! the per-conversation transcripts.
//!
//! The caller reads the files and parses each line into `HistoryLine` or
//! `TranscriptLine`; the functions here decide what the session list, the
//! message list and the rewritten history are.

use vstd::prelude::*;
use crate::json::{JsonNumber, JsonValue};
use crate::text::{chars_of, find_chars, find_first, find_from, trim, trim_str, is_blank};

verus! {

/// The provider id of Antigravity sessions.
pub const PROVIDER_ID: &'static str = "antigravity";

/// What stands between the history path and the conversation id in a
/// session's source path.
pub const SOURCE_SEPARATOR: &'static str = "#conversationId=";

/// Where a user request starts inside a transcript entry.
pub const USER_REQUEST_OPEN: &'static str = "<USER_REQUEST>";

/// Where a user request ends inside a transcript entry.
pub const USER_REQUEST_CLOSE: &'static str = "</USER_REQUEST>";

/// A source path names the history file and the conversation: exactly one
/// separator, as `str::split` finds it, with the parts before and after it.
pub open spec fn spec_parse_source(s: Seq<char>) -> Option<(Seq<char>, Seq<char>)> {
    let p = SOURCE_SEPARATOR@;
    match find_first(s, p) {
        Some(i) => if find_from(s, p, i + p.len()) is None {
            Some((s.subrange(0, i), s.subrange(i + p.len(), s.len() as int)))
        } else {
            None
        },
        None => None,
    }
}

/// Splits a source path `<history path>#conversationId=<id>` into the
/// history path and the conversation id.
pub fn parse_antigravity_source_path(source_path: &str) -> (r: Result<(String, String), String>)
    ensures
        match spec_parse_source(source_path@) {
            Some((a, b)) => r matches Ok((x, y)) && x@ == a && y@ == b,
            None => r matches Err(e) && e@ == "Invalid Antigravity source path: "@ + source_path@,
        },
{
    let cs = chars_of(source_path);
    let sep = chars_of(SOURCE_SEPARATOR);
    let n = cs.len();
    let m = sep.len();
    match find_chars(&cs, &sep, 0) {
        Some(i) => {
            proof {
                crate::text::lemma_find_from(cs@, sep@, 0);
            }
            match find_chars(&cs, &sep, i + m) {
                None => {
                    let before = source_path.substring_char(0, i).to_owned();
                    let after = source_path.substring_char(i + m, n).to_owned();
                    return Ok((before, after));
                },
                Some(_) => {},
            }
        },
        None => {},
    }
    let mut e = String::from_str("Invalid Antigravity source path: ");
    e.append(source_path);
    Err(e)
}

/// The source path of the conversation `conv_id` of the history file.
pub open spec fn spec_source_path(history_path: Seq<char>, conv_id: Seq<char>) -> Seq<char> {
    history_path + SOURCE_SEPARATOR@ + conv_id
}

/// Builds the source path `<history path>#conversationId=<id>`.
pub fn source_path_for(history_path: &str, conv_id: &str) -> (r: String)
    ensures
        r@ == spec_source_path(history_path@, conv_id@),
{
    let mut r = history_path.to_owned();
    r.append(SOURCE_SEPARATOR);
    r.append(conv_id);
    r
}

/// The tags of a user request stand in order, when both are there; the
/// request is then the text between them.
pub open spec fn request_tags_in_order(c: Seq<char>) -> bool {
    match (find_first(c, USER_REQUEST_OPEN@), find_first(c, USER_REQUEST_CLOSE@)) {
        (Some(a), Some(b)) => a + USER_REQUEST_OPEN@.len() <= b,
        _ => true,
    }
}

/// The user request of a transcript entry: the trimmed text between the
/// first opening and the first closing tag when both are there, else the
/// whole trimmed entry.
pub open spec fn spec_user_request(c: Seq<char>) -> Seq<char> {
    match (find_first(c, USER_REQUEST_OPEN@), find_first(c, USER_REQUEST_CLOSE@)) {
        (Some(a), Some(b)) => trim(c.subrange(a + USER_REQUEST_OPEN@.len(), b)),
        _ => trim(c),
    }
}

/// Whether the tags of a user request in `content` stand in order (the
/// extraction slices between them and cannot do so otherwise).
pub fn user_request_tags_in_order(content: &str) -> (b: bool)
    ensures
        b == request_tags_in_order(content@),
{
    let cs = chars_of(content);
    let open = chars_of(USER_REQUEST_OPEN);
    let close = chars_of(USER_REQUEST_CLOSE);
    match (find_chars(&cs, &open, 0), find_chars(&cs, &close, 0)) {
        (Some(a), Some(b)) => a as u128 + open.len() as u128 <= b as u128,
        _ => true,
    }
}

/// Extracts the user request from a transcript entry (see `spec_user_request`).
pub fn extract_user_request(content: &str) -> (r: String)
    requires
        request_tags_in_order(content@),
    ensures
        r@ == spec_user_request(content@),
{
    let cs = chars_of(content);
    let open = chars_of(USER_REQUEST_OPEN);
    let close = chars_of(USER_REQUEST_CLOSE);
    match find_chars(&cs, &open, 0) {
        Some(a) => match find_chars(&cs, &close, 0) {
            Some(b) => {
                proof {
                    crate::text::lemma_find_from(cs@, open@, 0);
                    crate::text::lemma_find_from(cs@, close@, 0);
                }
                let inner = content.substring_char(a + open.len(), b);
                return trim_str(inner);
            },
            None => {},
        },
        None => {},
    }
    trim_str(content)
}

/// Between the two tags, the whole text is the request, trimmed: for every
/// `x` without a closing tag, the request of `<USER_REQUEST>x</USER_REQUEST>`
/// is `trim(x)`, newlines inside `x` included, and the tags stand in order.
pub proof fn law_request_between_tags(x: Seq<char>)
    requires
        find_first(x, USER_REQUEST_CLOSE@) is None,
    ensures
        request_tags_in_order(USER_REQUEST_OPEN@ + x + USER_REQUEST_CLOSE@),
        spec_user_request(USER_REQUEST_OPEN@ + x + USER_REQUEST_CLOSE@) == trim(x),
{
    let o = USER_REQUEST_OPEN@;
    let c = USER_REQUEST_CLOSE@;
    let s = o + x + c;
    reveal_strlit("<USER_REQUEST>");
    reveal_strlit("</USER_REQUEST>");
    assert(o.len() == 14);
    assert(c.len() == 15);
    let p: int = 14 + x.len() as int;
    assert(s.subrange(0, 14) =~= o);
    crate::text::lemma_find_from_exact(s, o, 0, 0);
    assert(s.subrange(p, p + 15) =~= c);
    crate::text::lemma_find_from(x, c, 0);
    assert forall|k: int| 0 <= k < p implies !crate::text::occurs_at(s, c, k) by {
        if crate::text::occurs_at(s, c, k) {
            assert(s.subrange(k, k + 15)[0] == c[0]);
            if k < 14 {
                assert(s[k] == o[k]);
                if k == 0 {
                    assert(s.subrange(k, k + 15)[1] == c[1]);
                    assert(s[1] == o[1]);
                }
            } else if k + 15 <= p {
                assert(x.subrange(k - 14, k + 1) =~= s.subrange(k, k + 15));
                assert(crate::text::occurs_at(x, c, k - 14));
            } else {
                assert(s[p] == c[0]);
                assert(s.subrange(k, k + 15)[p - k] == s[p]);
            }
        }
    }
    crate::text::lemma_find_from_exact(s, c, 0, p);
    assert(s.subrange(14, p) =~= x);
}

/// Without an opening tag the request is the whole entry, trimmed.
pub proof fn law_request_without_open_tag(content: Seq<char>)
    requires
        find_first(content, USER_REQUEST_OPEN@) is None,
    ensures
        request_tags_in_order(content),
        spec_user_request(content) == trim(content),
{
}

/// The summary of a text: trimmed, and cut to `max` characters followed by
/// `...` when longer.
pub open spec fn spec_truncate_summary(text: Seq<char>, max: nat) -> Seq<char> {
    let t = trim(text);
    if t.len() <= max {
        t
    } else {
        t.take(max as int) + "..."@
    }
}

/// Shortens `text` to a summary of at most `max_chars` characters (and the
/// ellipsis).
pub fn truncate_summary(text: &str, max_chars: usize) -> (r: String)
    ensures
        r@ == spec_truncate_summary(text@, max_chars as nat),
{
    let t = trim_str(text);
    let n = t.as_str().unicode_len();
    if n <= max_chars {
        t
    } else {
        let mut r = t.as_str().substring_char(0, max_chars).to_owned();
        r.append("...");
        r
    }
}


/// A source path built from a history path and a conversation id, neither
/// of which contains the separator, parses back into the two.
pub proof fn lemma_source_path_round_trip(history_path: Seq<char>, conv_id: Seq<char>)
    requires
        find_first(history_path, SOURCE_SEPARATOR@) is None,
        find_first(conv_id, SOURCE_SEPARATOR@) is None,
    ensures
        spec_parse_source(spec_source_path(history_path, conv_id)) == Some((history_path, conv_id)),
{
    let p = SOURCE_SEPARATOR@;
    let h = history_path;
    let c = conv_id;
    let s = spec_source_path(h, c);
    reveal_strlit("#conversationId=");
    assert(p.len() == 16);
    let hl = h.len() as int;
    assert(s.subrange(hl, hl + 16) =~= p);
    crate::text::lemma_find_from(h, p, 0);
    assert forall|k: int| 0 <= k < hl implies !crate::text::occurs_at(s, p, k) by {
        if crate::text::occurs_at(s, p, k) {
            if k + 16 <= hl {
                assert(h.subrange(k, k + 16) =~= s.subrange(k, k + 16));
                assert(crate::text::occurs_at(h, p, k));
            } else {
                // The `#` that opens the separator after `h` would stand
                // inside this occurrence, where the separator has none.
                assert(s[hl] == '#');
                assert(s.subrange(k, k + 16)[hl - k] == s[hl]);
                assert(p[hl - k] != '#');
            }
        }
    }
    crate::text::lemma_find_from_exact(s, p, 0, hl);
    crate::text::lemma_find_from(c, p, 0);
    assert forall|k: int| hl + 16 <= k implies !crate::text::occurs_at(s, p, k) by {
        if crate::text::occurs_at(s, p, k) {
            let off = k - hl - 16;
            assert(c.subrange(off, off + 16) =~= s.subrange(k, k + 16));
            assert(crate::text::occurs_at(c, p, off));
        }
    }
    crate::text::lemma_find_from_none(s, p, hl + 16);
    assert(s.subrange(0, hl) =~= h);
    assert(s.subrange(hl + 16, s.len() as int) =~= c);
}


/// One line of `history.jsonl`, as far as it parsed.
#[derive(Debug)]
pub struct HistoryLine {
    pub display: Option<String>,
    pub timestamp: Option<i64>,
    pub workspace: Option<String>,
    pub conversation_id: Option<String>,
}

/// A session as the session list shows it.
#[derive(Debug)]
pub struct SessionMeta {
    pub provider_id: String,
    pub session_id: String,
    pub title: Option<String>,
    pub summary: Option<String>,
    pub project_dir: Option<String>,
    pub created_at: Option<i64>,
    pub last_active_at: Option<i64>,
    pub source_path: Option<String>,
    pub resume_command: Option<String>,
}

/// The conversation a history line belongs to: its id, when not blank.
pub open spec fn conv_key(e: HistoryLine) -> Option<Seq<char>> {
    match e.conversation_id {
        Some(c) => if trim(c@).len() > 0 {
            Some(c@)
        } else {
            None
        },
        None => None,
    }
}

/// The timestamp by which history lines are ordered; 0 when missing.
pub open spec fn history_ts(e: HistoryLine) -> i64 {
    match e.timestamp {
        Some(t) => t,
        None => 0,
    }
}

/// `es[i]` is the line of conversation `id` among `es[..n]` that a stable
/// sort by timestamp puts first: the least timestamp, the earliest line
/// among equal ones.
pub open spec fn earliest_of(es: Seq<HistoryLine>, id: Seq<char>, i: int, n: int) -> bool {
    &&& 0 <= i < n <= es.len()
    &&& conv_key(es[i]) == Some(id)
    &&& forall|j: int|
        0 <= j < n && conv_key(#[trigger] es[j]) == Some(id) ==> history_ts(es[i]) < history_ts(
            es[j],
        ) || (history_ts(es[i]) == history_ts(es[j]) && i <= j)
}

/// `es[i]` is the line of conversation `id` among `es[..n]` that a stable
/// sort by timestamp puts last: the greatest timestamp, the latest line
/// among equal ones.
pub open spec fn latest_of(es: Seq<HistoryLine>, id: Seq<char>, i: int, n: int) -> bool {
    &&& 0 <= i < n <= es.len()
    &&& conv_key(es[i]) == Some(id)
    &&& forall|j: int|
        0 <= j < n && conv_key(#[trigger] es[j]) == Some(id) ==> history_ts(es[j]) < history_ts(
            es[i],
        ) || (history_ts(es[i]) == history_ts(es[j]) && j <= i)
}

/// The length of a session title.
pub const TITLE_MAX_CHARS: usize = 160;

/// `m` describes conversation `id` of the history file `h`, whose first
/// line (by timestamp) is `first` and last line is `last`.
pub open spec fn describes_session(
    m: SessionMeta,
    h: Seq<char>,
    id: Seq<char>,
    first: HistoryLine,
    last: HistoryLine,
) -> bool {
    &&& m.provider_id@ == PROVIDER_ID@
    &&& m.session_id@ == id
    &&& match first.display {
        Some(d) => m.title matches Some(t) && t@ == spec_truncate_summary(
            d@,
            TITLE_MAX_CHARS as nat,
        ),
        None => m.title is None,
    }
    &&& m.summary == m.title
    &&& m.project_dir == first.workspace
    &&& m.created_at == first.timestamp
    &&& m.last_active_at == match last.timestamp {
        Some(t) => Some(t),
        None => first.timestamp,
    }
    &&& m.source_path matches Some(p) && p@ == spec_source_path(h, id)
    &&& m.resume_command matches Some(c) && c@ == "agy --conversation "@ + id
}

/// `m` is the session of its conversation in the history `es` of file `h`.
pub open spec fn is_session_meta(m: SessionMeta, es: Seq<HistoryLine>, h: Seq<char>) -> bool {
    exists|f: int, l: int|
        #![trigger earliest_of(es, m.session_id@, f, es.len() as int), latest_of(es, m.session_id@, l, es.len() as int)]
        earliest_of(es, m.session_id@, f, es.len() as int) && latest_of(
            es,
            m.session_id@,
            l,
            es.len() as int,
        ) && describes_session(m, h, m.session_id@, es[f], es[l])
}

/// The position of `c` in `ids`.
fn index_of(ids: &Vec<String>, c: &String) -> (r: Option<usize>)
    ensures
        match r {
            Some(k) => k < ids@.len() && ids@[k as int]@ == c@,
            None => forall|k: int| 0 <= k < ids@.len() ==> ids@[k]@ != c@,
        },
{
    let n = ids.len();
    let mut k: usize = 0;
    while k < n
        invariant
            n == ids@.len(),
            k <= n,
            forall|j: int| 0 <= j < k ==> ids@[j]@ != c@,
        decreases n - k,
    {
        if ids[k] == *c {
            return Some(k);
        }
        k = k + 1;
    }
    None
}

fn timestamp_or_zero(e: &HistoryLine) -> (t: i64)
    ensures
        t == history_ts(*e),
{
    match e.timestamp {
        Some(t) => t,
        None => 0,
    }
}

/// Groups the history lines by conversation and finds, for each, the lines
/// that come first and last by timestamp.
fn group_conversations(entries: &Vec<HistoryLine>) -> (r: (Vec<String>, Vec<usize>, Vec<usize>))
    ensures
        r.0@.len() == r.1@.len() == r.2@.len(),
        forall|a: int, b: int| 0 <= a < b < r.0@.len() ==> r.0@[a]@ != r.0@[b]@,
        forall|k: int|
            0 <= k < r.0@.len() ==> earliest_of(
                entries@,
                #[trigger] r.0@[k]@,
                r.1@[k] as int,
                entries@.len() as int,
            ) && latest_of(entries@, r.0@[k]@, r.2@[k] as int, entries@.len() as int),
        forall|j: int|
            0 <= j < entries@.len() && (#[trigger] conv_key(entries@[j])) is Some ==> exists|k: int|
                0 <= k < r.0@.len() && r.0@[k]@ == conv_key(entries@[j])->0,
{
    let ghost es = entries@;
    let n = entries.len();
    let mut ids: Vec<String> = Vec::new();
    let mut firsts: Vec<usize> = Vec::new();
    let mut lasts: Vec<usize> = Vec::new();
    let mut i: usize = 0;
    while i < n
        invariant
            es == entries@,
            n == es.len(),
            i <= n,
            ids@.len() == firsts@.len() == lasts@.len(),
            forall|a: int, b: int| 0 <= a < b < ids@.len() ==> ids@[a]@ != ids@[b]@,
            forall|k: int|
                0 <= k < ids@.len() ==> earliest_of(
                    es,
                    #[trigger] ids@[k]@,
                    firsts@[k] as int,
                    i as int,
                ) && latest_of(es, ids@[k]@, lasts@[k] as int, i as int),
            forall|j: int|
                0 <= j < i && (#[trigger] conv_key(es[j])) is Some ==> exists|k: int|
                    0 <= k < ids@.len() && ids@[k]@ == conv_key(es[j])->0,
        decreases n - i,
    {
        let ghost old_ids = ids@;
        let ghost old_firsts = firsts@;
        let ghost old_lasts = lasts@;
        match &entries[i].conversation_id {
            Some(c) => {
                if !is_blank(c.as_str()) {
                    let t = timestamp_or_zero(&entries[i]);
                    match index_of(&ids, c) {
                        Some(k) => {
                            if t < timestamp_or_zero(&entries[firsts[k]]) {
                                firsts.set(k, i);
                            }
                            if t >= timestamp_or_zero(&entries[lasts[k]]) {
                                lasts.set(k, i);
                            }
                            proof {
                                assert forall|q: int| 0 <= q < ids@.len() implies earliest_of(
                                    es,
                                    #[trigger] ids@[q]@,
                                    firsts@[q] as int,
                                    i + 1,
                                ) && latest_of(es, ids@[q]@, lasts@[q] as int, i + 1) by {
                                    assert(earliest_of(es, old_ids[q]@, old_firsts[q] as int, i as int));
                                    assert(latest_of(es, old_ids[q]@, old_lasts[q] as int, i as int));
                                    if q != k {
                                        assert(ids@[q]@ != ids@[k as int]@);
                                    }
                                }
                                assert forall|j: int|
                                    0 <= j < i + 1 && (#[trigger] conv_key(es[j])) is Some implies exists|q: int|
                                        0 <= q < ids@.len() && ids@[q]@ == conv_key(es[j])->0 by {
                                    if j == i {
                                        assert(ids@[k as int]@ == conv_key(es[j])->0);
                                    }
                                }
                            }
                        },
                        None => {
                            ids.push(c.clone());
                            firsts.push(i);
                            lasts.push(i);
                            proof {
                                let k = ids@.len() - 1;
                                assert forall|q: int| 0 <= q < ids@.len() implies earliest_of(
                                    es,
                                    #[trigger] ids@[q]@,
                                    firsts@[q] as int,
                                    i + 1,
                                ) && latest_of(es, ids@[q]@, lasts@[q] as int, i + 1) by {
                                    if q < k {
                                        assert(ids@[q] == old_ids[q]);
                                        assert(earliest_of(es, old_ids[q]@, old_firsts[q] as int, i as int));
                                        assert(latest_of(es, old_ids[q]@, old_lasts[q] as int, i as int));
                                        assert(ids@[q]@ != c@);
                                    } else {
                                        assert forall|j: int|
                                            0 <= j < i + 1 && conv_key(#[trigger] es[j]) == Some(c@) implies j == i by {
                                            if j < i {
                                                let w = choose|w: int|
                                                    0 <= w < old_ids.len() && old_ids[w]@ == conv_key(es[j])->0;
                                                assert(old_ids[w]@ != c@);
                                            }
                                        }
                                    }
                                }
                                assert forall|j: int|
                                    0 <= j < i + 1 && (#[trigger] conv_key(es[j])) is Some implies exists|q: int|
                                        0 <= q < ids@.len() && ids@[q]@ == conv_key(es[j])->0 by {
                                    if j == i {
                                        assert(ids@[k]@ == conv_key(es[j])->0);
                                    } else {
                                        let w = choose|w: int|
                                            0 <= w < old_ids.len() && old_ids[w]@ == conv_key(es[j])->0;
                                        assert(ids@[w] == old_ids[w]);
                                    }
                                }
                            }
                        },
                    }
                } else {
                    proof {
                        assert forall|q: int| 0 <= q < ids@.len() implies earliest_of(
                            es,
                            #[trigger] ids@[q]@,
                            firsts@[q] as int,
                            i + 1,
                        ) && latest_of(es, ids@[q]@, lasts@[q] as int, i + 1) by {
                            assert(earliest_of(es, ids@[q]@, firsts@[q] as int, i as int));
                            assert(latest_of(es, ids@[q]@, lasts@[q] as int, i as int));
                        }
                    }
                }
            },
            None => {
                proof {
                    assert forall|q: int| 0 <= q < ids@.len() implies earliest_of(
                        es,
                        #[trigger] ids@[q]@,
                        firsts@[q] as int,
                        i + 1,
                    ) && latest_of(es, ids@[q]@, lasts@[q] as int, i + 1) by {
                        assert(earliest_of(es, ids@[q]@, firsts@[q] as int, i as int));
                        assert(latest_of(es, ids@[q]@, lasts@[q] as int, i as int));
                    }
                }
            },
        }
        i = i + 1;
    }
    (ids, firsts, lasts)
}


/// Builds the session of conversation `id`.
fn build_meta(history_path: &str, id: &String, first: &HistoryLine, last: &HistoryLine) -> (m:
    SessionMeta)
    ensures
        describes_session(m, history_path@, id@, *first, *last),
{
    let title = match &first.display {
        Some(d) => Some(truncate_summary(d.as_str(), TITLE_MAX_CHARS)),
        None => None,
    };
    let summary = match &title {
        Some(t) => Some(t.clone()),
        None => None,
    };
    let project_dir = match &first.workspace {
        Some(w) => Some(w.clone()),
        None => None,
    };
    let created_at = first.timestamp;
    let last_active_at = match last.timestamp {
        Some(t) => Some(t),
        None => created_at,
    };
    let mut resume = String::from_str("agy --conversation ");
    resume.append(id.as_str());
    SessionMeta {
        provider_id: String::from_str(PROVIDER_ID),
        session_id: id.clone(),
        title,
        summary,
        project_dir,
        created_at,
        last_active_at,
        source_path: Some(source_path_for(history_path, id.as_str())),
        resume_command: Some(resume),
    }
}

/// The sessions of the history file `history_path`, whose lines (those
/// that parsed) are `entries`: one per conversation with a non-blank id.
pub fn scan_sessions(history_path: &str, entries: &Vec<HistoryLine>) -> (r: Vec<SessionMeta>)
    ensures
        forall|k: int| 0 <= k < r@.len() ==> is_session_meta(#[trigger] r@[k], entries@, history_path@),
        forall|j: int|
            0 <= j < entries@.len() && (#[trigger] conv_key(entries@[j])) is Some ==> exists|k: int|
                0 <= k < r@.len() && r@[k].session_id@ == conv_key(entries@[j])->0,
        forall|a: int, b: int| 0 <= a < b < r@.len() ==> r@[a].session_id@ != r@[b].session_id@,
{
    let (ids, firsts, lasts) = group_conversations(entries);
    let ghost es = entries@;
    let mut metas: Vec<SessionMeta> = Vec::new();
    let n = ids.len();
    let mut k: usize = 0;
    while k < n
        invariant
            es == entries@,
            n == ids@.len() == firsts@.len() == lasts@.len(),
            k <= n,
            forall|a: int, b: int| 0 <= a < b < ids@.len() ==> ids@[a]@ != ids@[b]@,
            forall|q: int|
                0 <= q < ids@.len() ==> earliest_of(
                    es,
                    #[trigger] ids@[q]@,
                    firsts@[q] as int,
                    es.len() as int,
                ) && latest_of(es, ids@[q]@, lasts@[q] as int, es.len() as int),
            metas@.len() == k,
            forall|q: int| 0 <= q < k ==> (#[trigger] metas@[q]).session_id@ == ids@[q]@,
            forall|q: int| 0 <= q < k ==> is_session_meta(#[trigger] metas@[q], es, history_path@),
        decreases n - k,
    {
        assert(earliest_of(es, ids@[k as int]@, firsts@[k as int] as int, es.len() as int));
        let m = build_meta(history_path, &ids[k], &entries[firsts[k]], &entries[lasts[k]]);
        proof {
            let f = firsts@[k as int] as int;
            let l = lasts@[k as int] as int;
            assert(earliest_of(es, m.session_id@, f, es.len() as int));
            assert(latest_of(es, m.session_id@, l, es.len() as int));
        }
        metas.push(m);
        k = k + 1;
    }
    proof {
        assert forall|j: int|
            0 <= j < es.len() && (#[trigger] conv_key(es[j])) is Some implies exists|q: int|
                0 <= q < metas@.len() && metas@[q].session_id@ == conv_key(es[j])->0 by {
            let w = choose|w: int| 0 <= w < ids@.len() && ids@[w]@ == conv_key(es[j])->0;
            assert(metas@[w].session_id@ == ids@[w]@);
        }
        assert forall|a: int, b: int| 0 <= a < b < metas@.len() implies metas@[a].session_id@
            != metas@[b].session_id@ by {
            assert(metas@[a].session_id@ == ids@[a]@);
            assert(metas@[b].session_id@ == ids@[b]@);
        }
    }
    metas
}

/// A session is never last active before it was created.
pub proof fn lemma_session_times_ordered(m: SessionMeta, es: Seq<HistoryLine>, h: Seq<char>)
    requires
        is_session_meta(m, es, h),
    ensures
        m.created_at is Some && m.last_active_at is Some ==> m.created_at->0
            <= m.last_active_at->0,
{
    let (f, l) = choose|f: int, l: int|
        earliest_of(es, m.session_id@, f, es.len() as int) && latest_of(
            es,
            m.session_id@,
            l,
            es.len() as int,
        ) && describes_session(m, h, m.session_id@, es[f], es[l]);
    assert(conv_key(es[l]) == Some(m.session_id@));
    assert(conv_key(es[f]) == Some(m.session_id@));
}


/// A message of a session.
#[derive(Debug)]
pub struct SessionMessage {
    pub role: String,
    pub content: String,
    pub ts: Option<i64>,
}

/// The timestamp by which messages are ordered; 0 when missing.
pub open spec fn msg_key(m: SessionMessage) -> i64 {
    match m.ts {
        Some(t) => t,
        None => 0,
    }
}

/// The messages are in timestamp order.
pub open spec fn sorted_by_ts(s: Seq<SessionMessage>) -> bool {
    forall|i: int, j: int| 0 <= i < j < s.len() ==> msg_key(s[i]) <= msg_key(s[j])
}

/// The messages with timestamp key `k`, in order.
pub open spec fn with_key(s: Seq<SessionMessage>, k: i64) -> Seq<SessionMessage> {
    s.filter(|m: SessionMessage| msg_key(m) == k)
}

/// `r` is `s` sorted stably by timestamp: in timestamp order, and the
/// messages of each timestamp in their order in `s`.
pub open spec fn is_stable_sort_of(r: Seq<SessionMessage>, s: Seq<SessionMessage>) -> bool {
    &&& r.len() == s.len()
    &&& sorted_by_ts(r)
    &&& forall|k: i64| #[trigger] with_key(r, k) == with_key(s, k)
}

proof fn lemma_filter_none<A>(s: Seq<A>, p: spec_fn(A) -> bool)
    requires
        forall|i: int| 0 <= i < s.len() ==> !p(#[trigger] s[i]),
    ensures
        s.filter(p) == Seq::<A>::empty(),
{
    broadcast use vstd::seq_lib::group_filter_ensures;

    if s.filter(p).len() > 0 {
        let e = s.filter(p)[0];
        assert(p(e));
        assert(s.filter(p).contains(e));
        s.lemma_filter_contains_rev(p, e);
    }
    assert(s.filter(p) =~= Seq::<A>::empty());
}

fn message_ts(m: &SessionMessage) -> (t: i64)
    ensures
        t == msg_key(*m),
{
    match m.ts {
        Some(t) => t,
        None => 0,
    }
}

/// `s` sorted stably by timestamp (`sort_by_key` on `ts.unwrap_or(0)`).
pub fn sort_messages_by_ts(s: Vec<SessionMessage>) -> (r: Vec<SessionMessage>)
    ensures
        is_stable_sort_of(r@, s@),
{
    let ghost orig = s@;
    let mut rest = s;
    let mut r: Vec<SessionMessage> = Vec::new();
    proof {
        assert(orig.skip(orig.len() as int) =~= Seq::<SessionMessage>::empty());
        assert(r@ =~= orig.skip(orig.len() as int));
    }
    while rest.len() > 0
        invariant
            rest@ == orig.take(rest@.len() as int),
            rest@.len() <= orig.len(),
            r@.len() == orig.len() - rest@.len(),
            sorted_by_ts(r@),
            forall|k: i64| #[trigger] with_key(r@, k) == with_key(orig.skip(rest@.len() as int), k),
        decreases rest@.len(),
    {
        let ghost i = rest@.len() as int;
        let x = rest.pop().unwrap();
        let ghost old_r = r@;
        proof {
            assert(rest@ =~= orig.take(i - 1));
            assert(x == orig[i - 1]);
            assert(orig.skip(i - 1) =~= seq![x] + orig.skip(i));
        }
        let kx = match x.ts {
            Some(t) => t,
            None => 0,
        };
        let mut p: usize = 0;
        let n = r.len();
        while p < n && message_ts(&r[p]) < kx
            invariant
                n == r@.len(),
                p <= n,
                forall|j: int| 0 <= j < p ==> msg_key(r@[j]) < kx,
            decreases n - p,
        {
            p = p + 1;
        }
        proof {
            assert(kx == msg_key(x));
            assert forall|j: int| p <= j < n implies msg_key(r@[j]) >= kx by {
                assert(msg_key(r@[p as int]) >= kx);
            }
        }
        r.insert(p, x);
        proof {
            let a = old_r.take(p as int);
            let b = old_r.skip(p as int);
            assert(old_r =~= a + b);
            assert(r@ =~= a + (seq![x] + b));
            assert forall|k: i64| #[trigger] with_key(r@, k) == with_key(orig.skip(i - 1), k) by {
                let f = |m: SessionMessage| msg_key(m) == k;
                vstd::seq::Seq::filter_distributes_over_add(a, seq![x] + b, f);
                vstd::seq::Seq::filter_distributes_over_add(a, b, f);
                b.lemma_filter_prepend(x, f);
                orig.skip(i).lemma_filter_prepend(x, f);
                assert(with_key(old_r, k) == with_key(orig.skip(i), k));
                if k == kx {
                    assert forall|j: int| 0 <= j < a.len() implies !f(#[trigger] a[j]) by {
                        assert(a[j] == old_r[j]);
                    }
                    lemma_filter_none(a, f);
                    assert(a.filter(f) + b.filter(f) =~= b.filter(f));
                    assert(with_key(r@, k) =~= seq![x] + b.filter(f));
                } else {
                    assert(with_key(r@, k) =~= a.filter(f) + b.filter(f));
                }
            }
            assert forall|u: int, v: int| 0 <= u < v < r@.len() implies msg_key(r@[u]) <= msg_key(
                r@[v],
            ) by {
                if v < p {
                    assert(r@[u] == old_r[u] && r@[v] == old_r[v]);
                } else if v == p {
                    assert(r@[u] == old_r[u]);
                } else if u < p {
                    assert(r@[u] == old_r[u] && r@[v] == old_r[v - 1]);
                } else if u == p {
                    assert(r@[v] == old_r[v - 1]);
                } else {
                    assert(r@[u] == old_r[u - 1] && r@[v] == old_r[v - 1]);
                }
            }
        }
    }
    proof {
        assert(orig.skip(0) =~= orig);
    }
    r
}


/// One line of a conversation transcript, as far as it parsed.
#[derive(Debug)]
pub struct TranscriptLine {
    pub source: Option<String>,
    pub line_type: Option<String>,
    pub content: Option<String>,
    /// A string or a number.
    pub created_at: Option<JsonValue>,
}

/// The milliseconds since the Unix epoch of an RFC 3339 date-time, as
/// `chrono` reads it; none when the text is not one.
pub uninterp spec fn rfc3339_millis(text: Seq<char>) -> Option<i64>;

/// Reads an RFC 3339 date-time with `chrono::DateTime::parse_from_rfc3339`
/// and gives its `timestamp_millis`. The contract claims that the result is
/// `rfc3339_millis` of the text, which depends on the text alone (the offset
/// comes from the text, not from the machine); what it is is left to chrono.
#[verifier::external_body]
fn parse_rfc3339_millis(text: &str) -> (r: Option<i64>)
    ensures
        r == rfc3339_millis(text@),
{
    match chrono::DateTime::parse_from_rfc3339(text) {
        Ok(dt) => Some(dt.timestamp_millis()),
        Err(_) => None,
    }
}

/// A transcript timestamp in milliseconds: an integer that fits in `i64` as
/// it is, a string as an RFC 3339 date-time, anything else none.
pub open spec fn timestamp_ms(raw: JsonValue) -> Option<i64> {
    match raw {
        JsonValue::Number(JsonNumber::PosInt(n)) => if n <= i64::MAX {
            Some(n as i64)
        } else {
            None
        },
        JsonValue::Number(JsonNumber::NegInt(i)) => Some(i),
        JsonValue::Str(s) => rfc3339_millis(s@),
        _ => None,
    }
}

/// Reads a transcript timestamp (see `timestamp_ms`).
pub fn parse_timestamp_to_ms(raw: &JsonValue) -> (r: Option<i64>)
    ensures
        r == timestamp_ms(*raw),
{
    match raw {
        JsonValue::Number(JsonNumber::PosInt(n)) => if *n <= i64::MAX as u64 {
            Some(*n as i64)
        } else {
            None
        },
        JsonValue::Number(JsonNumber::NegInt(i)) => Some(*i),
        JsonValue::Str(s) => parse_rfc3339_millis(s.as_str()),
        _ => None,
    }
}

/// The timestamp of a transcript line, when its `created_at` can be read.
pub open spec fn transcript_ts(l: TranscriptLine) -> Option<i64> {
    match l.created_at {
        Some(v) => timestamp_ms(v),
        None => None,
    }
}

fn line_ts(l: &TranscriptLine) -> (r: Option<i64>)
    ensures
        r == transcript_ts(*l),
{
    match &l.created_at {
        Some(v) => parse_timestamp_to_ms(v),
        None => None,
    }
}

/// What a message says: role, content and timestamp.
pub open spec fn msg_view(m: SessionMessage) -> (Seq<char>, Seq<char>, Option<i64>) {
    (m.role@, m.content@, m.ts)
}

/// The line is a user input.
pub open spec fn is_user_input(l: TranscriptLine) -> bool {
    l.line_type matches Some(t) && t@ == "USER_INPUT"@
}

/// The line is a response of the model's planner.
pub open spec fn is_planner_response(l: TranscriptLine) -> bool {
    &&& l.source matches Some(s) && s@ == "MODEL"@
    &&& l.line_type matches Some(t) && t@ == "PLANNER_RESPONSE"@
}

/// The message a transcript line contributes: the user request of a user
/// input, or the trimmed text of a planner response, when not empty.
pub open spec fn transcript_message(l: TranscriptLine) -> Option<(Seq<char>, Seq<char>, Option<i64>)> {
    if is_user_input(l) {
        match l.content {
            Some(c) => {
                let r = spec_user_request(c@);
                if r.len() > 0 {
                    Some(("user"@, r, transcript_ts(l)))
                } else {
                    None
                }
            },
            None => None,
        }
    } else if is_planner_response(l) {
        match l.content {
            Some(c) => if trim(c@).len() > 0 {
                Some(("assistant"@, trim(c@), transcript_ts(l)))
            } else {
                None
            },
            None => None,
        }
    } else {
        None
    }
}

/// Every user input of the transcript can have its request extracted.
pub open spec fn transcript_extractable(lines: Seq<TranscriptLine>) -> bool {
    forall|i: int|
        0 <= i < lines.len() && is_user_input(#[trigger] lines[i]) && lines[i].content is Some
            ==> request_tags_in_order(lines[i].content->0@)
}

fn opt_text_is(o: &Option<String>, lit: &str) -> (b: bool)
    ensures
        b == (*o matches Some(s) && s@ == lit@),
{
    match o {
        Some(s) => crate::text::str_eq(s.as_str(), lit),
        None => false,
    }
}

/// Whether every user input of the transcript can have its request
/// extracted (see `transcript_extractable`).
pub fn check_transcript_extractable(lines: &Vec<TranscriptLine>) -> (b: bool)
    ensures
        b == transcript_extractable(lines@),
{
    let n = lines.len();
    let mut i: usize = 0;
    while i < n
        invariant
            n == lines@.len(),
            i <= n,
            forall|j: int|
                0 <= j < i && is_user_input(#[trigger] lines@[j]) && lines@[j].content is Some
                    ==> request_tags_in_order(lines@[j].content->0@),
        decreases n - i,
    {
        if opt_text_is(&lines[i].line_type, "USER_INPUT") {
            match &lines[i].content {
                Some(c) => {
                    if !user_request_tags_in_order(c.as_str()) {
                        return false;
                    }
                },
                None => {},
            }
        }
        i = i + 1;
    }
    true
}

/// The messages of a transcript, sorted stably by timestamp.
pub fn transcript_messages(lines: &Vec<TranscriptLine>) -> (r: Vec<SessionMessage>)
    requires
        transcript_extractable(lines@),
    ensures
        exists|u: Seq<SessionMessage>|
            u.map_values(|m: SessionMessage| msg_view(m)) == lines@.filter_map(
                |l: TranscriptLine| transcript_message(l),
            ) && is_stable_sort_of(r@, u),
{
    let mut u: Vec<SessionMessage> = Vec::new();
    let n = lines.len();
    let mut i: usize = 0;
    while i < n
        invariant
            n == lines@.len(),
            i <= n,
            transcript_extractable(lines@),
            u@.map_values(|m: SessionMessage| msg_view(m)) == lines@.take(i as int).filter_map(
                |l: TranscriptLine| transcript_message(l),
            ),
        decreases n - i,
    {
        let line = &lines[i];
        proof {
            assert(lines@.take(i as int + 1).drop_last() =~= lines@.take(i as int));
            assert(lines@.take(i as int + 1).last() == lines@[i as int]);
        }
        if opt_text_is(&line.line_type, "USER_INPUT") {
            match &line.content {
                Some(raw) => {
                    let content = extract_user_request(raw.as_str());
                    if content.as_str().unicode_len() > 0 {
                        u.push(SessionMessage { role: String::from_str("user"), content, ts: line_ts(line) });
                    }
                },
                None => {},
            }
        } else if opt_text_is(&line.source, "MODEL") && opt_text_is(
            &line.line_type,
            "PLANNER_RESPONSE",
        ) {
            match &line.content {
                Some(raw) => {
                    if !is_blank(raw.as_str()) {
                        u.push(
                            SessionMessage {
                                role: String::from_str("assistant"),
                                content: trim_str(raw.as_str()),
                                ts: line_ts(line),
                            },
                        );
                    }
                },
                None => {},
            }
        }
        proof {
            assert(u@.map_values(|m: SessionMessage| msg_view(m)) =~= lines@.take(
                i as int + 1,
            ).filter_map(|l: TranscriptLine| transcript_message(l)));
        }
        i = i + 1;
    }
    proof {
        assert(lines@.take(n as int) =~= lines@);
    }
    let ghost unsorted = u@;
    let r = sort_messages_by_ts(u);
    assert(is_stable_sort_of(r@, unsorted));
    r
}

/// What a session shows from its transcript messages: them, when there are
/// any; otherwise nothing, and the session falls back to its history lines.
pub fn transcript_result(msgs: Vec<SessionMessage>) -> (r: Option<Vec<SessionMessage>>)
    ensures
        r is Some <==> msgs@.len() > 0,
        r matches Some(v) ==> v@ == msgs@,
{
    if msgs.len() > 0 {
        Some(msgs)
    } else {
        None
    }
}

/// The message a history line contributes to conversation `conv_id`: its
/// non-blank `display` text, as a user message.
pub open spec fn history_message(e: HistoryLine, conv_id: Seq<char>) -> Option<
    (Seq<char>, Seq<char>, Option<i64>),
> {
    if e.conversation_id matches Some(c) && c@ == conv_id {
        match e.display {
            Some(d) => if trim(d@).len() > 0 {
                Some(("user"@, d@, e.timestamp))
            } else {
                None
            },
            None => None,
        }
    } else {
        None
    }
}

/// The messages of conversation `conv_id` in the history, sorted stably by
/// timestamp; what a session shows when it has no transcript messages.
pub fn history_messages(entries: &Vec<HistoryLine>, conv_id: &str) -> (r: Vec<SessionMessage>)
    ensures
        exists|u: Seq<SessionMessage>|
            u.map_values(|m: SessionMessage| msg_view(m)) == entries@.filter_map(
                |e: HistoryLine| history_message(e, conv_id@),
            ) && is_stable_sort_of(r@, u),
{
    let mut u: Vec<SessionMessage> = Vec::new();
    let n = entries.len();
    let mut i: usize = 0;
    while i < n
        invariant
            n == entries@.len(),
            i <= n,
            u@.map_values(|m: SessionMessage| msg_view(m)) == entries@.take(i as int).filter_map(
                |e: HistoryLine| history_message(e, conv_id@),
            ),
        decreases n - i,
    {
        let e = &entries[i];
        proof {
            assert(entries@.take(i as int + 1).drop_last() =~= entries@.take(i as int));
            assert(entries@.take(i as int + 1).last() == entries@[i as int]);
        }
        if opt_text_is(&e.conversation_id, conv_id) {
            match &e.display {
                Some(d) => {
                    if !is_blank(d.as_str()) {
                        u.push(
                            SessionMessage {
                                role: String::from_str("user"),
                                content: d.clone(),
                                ts: e.timestamp,
                            },
                        );
                    }
                },
                None => {},
            }
        }
        proof {
            assert(u@.map_values(|m: SessionMessage| msg_view(m)) =~= entries@.take(
                i as int + 1,
            ).filter_map(|e: HistoryLine| history_message(e, conv_id@)));
        }
        i = i + 1;
    }
    proof {
        assert(entries@.take(n as int) =~= entries@);
    }
    let ghost unsorted = u@;
    let r = sort_messages_by_ts(u);
    assert(is_stable_sort_of(r@, unsorted));
    r
}


/// A line of `history.jsonl` with what it parsed into, if it parsed.
#[derive(Debug)]
pub struct HistoryRecord {
    pub raw: String,
    pub parsed: Option<HistoryLine>,
}

/// A history line stays when a session is deleted unless it parsed and
/// belongs to that session.
pub open spec fn keeps_line(rec: HistoryRecord, session_id: Seq<char>) -> bool {
    match rec.parsed {
        Some(e) => !(e.conversation_id matches Some(c) && c@ == session_id),
        None => true,
    }
}

/// The raw lines of `recs` that stay when the session `session_id` is
/// deleted, in order.
pub open spec fn retained_lines(recs: Seq<HistoryRecord>, session_id: Seq<char>) -> Seq<String> {
    recs.filter_map(
        |rec: HistoryRecord|
            if keeps_line(rec, session_id) {
                Some(rec.raw)
            } else {
                None
            },
    )
}

/// The lines of the history that remain when the session `session_id` is
/// deleted, in order.
pub fn retain_other_sessions(records: &Vec<HistoryRecord>, session_id: &str) -> (r: Vec<String>)
    ensures
        r@ == retained_lines(records@, session_id@),
{
    let mut r: Vec<String> = Vec::new();
    let n = records.len();
    let mut i: usize = 0;
    while i < n
        invariant
            n == records@.len(),
            i <= n,
            r@ == retained_lines(records@.take(i as int), session_id@),
        decreases n - i,
    {
        let rec = &records[i];
        proof {
            assert(records@.take(i as int + 1).drop_last() =~= records@.take(i as int));
            assert(records@.take(i as int + 1).last() == records@[i as int]);
        }
        let keep = match &rec.parsed {
            Some(e) => !opt_text_is(&e.conversation_id, session_id),
            None => true,
        };
        if keep {
            r.push(rec.raw.clone());
        }
        proof {
            assert(r@ =~= retained_lines(records@.take(i as int + 1), session_id@));
        }
        i = i + 1;
    }
    proof {
        assert(records@.take(n as int) =~= records@);
    }
    r
}

proof fn lemma_retained_is_kept_raws(recs: Seq<HistoryRecord>, session_id: Seq<char>)
    ensures
        retained_lines(recs, session_id) == recs.filter(
            |rec: HistoryRecord| keeps_line(rec, session_id),
        ).map_values(|rec: HistoryRecord| rec.raw),
    decreases recs.len(),
{
    reveal(Seq::filter);
    let f = |rec: HistoryRecord| keeps_line(rec, session_id);
    if recs.len() > 0 {
        lemma_retained_is_kept_raws(recs.drop_last(), session_id);
        assert(retained_lines(recs, session_id) =~= recs.filter(f).map_values(
            |rec: HistoryRecord| rec.raw,
        ));
    } else {
        assert(retained_lines(recs, session_id) =~= recs.filter(f).map_values(
            |rec: HistoryRecord| rec.raw,
        ));
    }
}

proof fn lemma_retained_all(recs: Seq<HistoryRecord>, session_id: Seq<char>)
    requires
        forall|i: int| 0 <= i < recs.len() ==> keeps_line(#[trigger] recs[i], session_id),
    ensures
        retained_lines(recs, session_id) == recs.map_values(|rec: HistoryRecord| rec.raw),
    decreases recs.len(),
{
    if recs.len() > 0 {
        lemma_retained_all(recs.drop_last(), session_id);
        assert(recs.drop_last().map_values(|rec: HistoryRecord| rec.raw) =~= recs.map_values(
            |rec: HistoryRecord| rec.raw,
        ).drop_last());
        assert(retained_lines(recs, session_id) =~= recs.map_values(|rec: HistoryRecord| rec.raw));
    } else {
        assert(retained_lines(recs, session_id) =~= recs.map_values(|rec: HistoryRecord| rec.raw));
    }
}

/// Deleting a session a second time keeps every line. `recs` are the lines
/// of the history with what each parsed into, `parse` being the same for
/// equal text; `again` are the lines written back by the first deletion,
/// read again and parsed the same way. The second deletion keeps them all:
/// it writes back the same texts.
pub proof fn lemma_delete_twice(
    recs: Seq<HistoryRecord>,
    again: Seq<HistoryRecord>,
    session_id: Seq<char>,
    parse: spec_fn(Seq<char>) -> Option<HistoryLine>,
)
    requires
        forall|i: int| 0 <= i < recs.len() ==> (#[trigger] recs[i]).parsed == parse(recs[i].raw@),
        forall|i: int| 0 <= i < again.len() ==> (#[trigger] again[i]).parsed == parse(again[i].raw@),
        again.map_values(|rec: HistoryRecord| rec.raw@) == retained_lines(recs, session_id).map_values(
            |s: String| s@,
        ),
    ensures
        retained_lines(again, session_id).map_values(|s: String| s@) == retained_lines(
            recs,
            session_id,
        ).map_values(|s: String| s@),
{
    broadcast use vstd::seq_lib::group_filter_ensures;

    let f = |rec: HistoryRecord| keeps_line(rec, session_id);
    let kept = recs.filter(f);
    lemma_retained_is_kept_raws(recs, session_id);
    assert(again.len() == kept.len()) by {
        assert(again.map_values(|rec: HistoryRecord| rec.raw@).len() == again.len());
    }
    assert forall|i: int| 0 <= i < again.len() implies keeps_line(#[trigger] again[i], session_id) by {
        assert(f(kept[i]));
        assert(kept.contains(kept[i]));
        recs.lemma_filter_contains_rev(f, kept[i]);
        let j = choose|j: int| 0 <= j < recs.len() && recs[j] == kept[i];
        assert(recs[j].parsed == parse(recs[j].raw@));
        assert(again.map_values(|rec: HistoryRecord| rec.raw@)[i] == again[i].raw@);
        assert(retained_lines(recs, session_id)[i] == kept[i].raw);
        assert(again[i].raw@ == kept[i].raw@);
    }
    lemma_retained_all(again, session_id);
    assert(retained_lines(again, session_id).map_values(|s: String| s@) =~= again.map_values(
        |rec: HistoryRecord| rec.raw@,
    ));
}

/// The line parsed and carries the conversation id `session_id`.
pub open spec fn line_of_session(rec: HistoryRecord, session_id: Seq<char>) -> bool {
    rec.parsed matches Some(e) && e.conversation_id matches Some(c) && c@ == session_id
}

/// Deleting a session drops exactly its lines: a further line that parsed
/// with that session's conversation id adds nothing to what is kept, whatever
/// its display, timestamp or workspace, and any other line is kept, at the
/// end, as it is.
pub proof fn law_retain_one_more_line(
    recs: Seq<HistoryRecord>,
    rec: HistoryRecord,
    session_id: Seq<char>,
)
    ensures
        line_of_session(rec, session_id) ==> retained_lines(recs.push(rec), session_id) == retained_lines(recs, session_id),
        !line_of_session(rec, session_id) ==> retained_lines(recs.push(rec), session_id) == retained_lines(
            recs,
            session_id,
        ).push(rec.raw),
{
    assert(recs.push(rec).drop_last() =~= recs);
    assert(recs.push(rec).last() == rec);
}

/// A history holding only lines of the session is emptied by deleting it.
pub proof fn law_retain_drops_session_lines(recs: Seq<HistoryRecord>, session_id: Seq<char>)
    requires
        forall|i: int|
            0 <= i < recs.len() ==> line_of_session(#[trigger] recs[i], session_id),
    ensures
        retained_lines(recs, session_id).len() == 0,
    decreases recs.len(),
{
    if recs.len() > 0 {
        let init = recs.drop_last();
        assert forall|i: int| 0 <= i < init.len() implies line_of_session(
            #[trigger] init[i],
            session_id,
        ) by {
            assert(init[i] == recs[i]);
        }
        law_retain_drops_session_lines(init, session_id);
        law_retain_one_more_line(init, recs.last(), session_id);
        assert(init.push(recs.last()) =~= recs);
    }
}

/// Resolves the session to delete from its source path: the history path
/// and the conversation id, which must be `session_id`.
pub fn delete_target(source_path: &str, session_id: &str) -> (r: Result<(String, String), String>)
    ensures
        match spec_parse_source(source_path@) {
            None => r matches Err(e) && e@ == "Invalid Antigravity source path: "@ + source_path@,
            Some((h, c)) => if c == session_id@ {
                r matches Ok((x, y)) && x@ == h && y@ == c
            } else {
                r matches Err(e) && e@ == "Session ID mismatch: expected "@ + session_id@
                    + ", found "@ + c
            },
        },
{
    let (history_path, conv_id) = parse_antigravity_source_path(source_path)?;
    if !crate::text::str_eq(conv_id.as_str(), session_id) {
        let mut e = String::from_str("Session ID mismatch: expected ");
        e.append(session_id);
        e.append(", found ");
        e.append(conv_id.as_str());
        return Err(e);
    }
    Ok((history_path, conv_id))
}

/// The pieces of `s` between its `/` separators, empty pieces included.
pub open spec fn slash_pieces(s: Seq<char>) -> Seq<Seq<char>>
    decreases s.len(),
{
    if s.len() == 0 {
        seq![Seq::<char>::empty()]
    } else {
        let rest = slash_pieces(s.drop_last());
        if s.last() == '/' {
            rest.push(Seq::<char>::empty())
        } else {
            rest.update(rest.len() - 1, rest.last().push(s.last()))
        }
    }
}

/// The components of a path as `Path::components` documents them, for a
/// text with `/` as its only separator and no prefix: whether it has a root
/// (`/` first), whether it starts with a current-directory component (`.`
/// first, then `/` or the end), and its other pieces, repeated separators,
/// `.` pieces and a trailing separator being normalised away.
pub open spec fn path_components(s: Seq<char>) -> (bool, bool, Seq<Seq<char>>) {
    let rooted = s.len() > 0 && s[0] == '/';
    let cur_dir = !rooted && s.len() > 0 && s[0] == '.' && (s.len() == 1 || s[1] == '/');
    (
        rooted,
        cur_dir,
        slash_pieces(s).filter(|piece: Seq<char>| piece.len() > 0 && piece != seq!['.']),
    )
}

/// A path text that every platform parses with `/` as its only separator
/// and without a prefix: no `\\`, no `:` and no leading `//`.
pub open spec fn portable_path(s: Seq<char>) -> bool {
    &&& !s.contains('\\')
    &&& !s.contains(':')
    &&& !(s.len() >= 2 && s[0] == '/' && s[1] == '/')
}

/// Compares two paths with `Path`'s `==`, which compares their components.
/// The contract claims what holds on every platform: a path equals itself,
/// and two portable texts (see `portable_path`) are equal paths exactly when
/// their components, normalised as `Path::components` documents, are equal.
/// How other texts compare (with `\\`, a drive or a network prefix) depends
/// on the platform and is left unsaid.
#[verifier::external_body]
fn same_path(a: &str, b: &str) -> (r: bool)
    ensures
        a@ == b@ ==> r,
        portable_path(a@) && portable_path(b@) ==> (r == (path_components(a@) == path_components(
            b@,
        ))),
{
    std::path::Path::new(a) == std::path::Path::new(b)
}

/// The answer to a history path according to whether it is the Antigravity
/// history file.
pub fn history_path_verdict(is_history_file: bool) -> (r: Result<(), String>)
    ensures
        r is Ok <==> is_history_file,
        r matches Err(e) ==> e@ == "Access denied: source history path is invalid."@,
{
    if is_history_file {
        Ok(())
    } else {
        Err(String::from_str("Access denied: source history path is invalid."))
    }
}

/// Accepts a history path only when it is the Antigravity history file
/// `expected` (as paths compare), so that a crafted source path cannot make
/// the application read or rewrite another file: the text `expected` is
/// accepted, and of two portable texts (see `portable_path`) any whose
/// components differ from those of `expected` is refused.
pub fn check_history_path(history_path: &str, expected: &str) -> (r: Result<(), String>)
    ensures
        history_path@ == expected@ ==> r is Ok,
        portable_path(history_path@) && portable_path(expected@) ==> (r is Ok <==> path_components(
            history_path@,
        ) == path_components(expected@)),
        r matches Err(e) ==> e@ == "Access denied: source history path is invalid."@,
{
    history_path_verdict(same_path(history_path, expected))
}

} // verus!
