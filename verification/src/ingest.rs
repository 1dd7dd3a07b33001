//! Turning the bytes appended to session records into events.
//!
//! Reading files is left to the caller; here are the decisions around it:
//! where to start reading a file, how appended text splits into complete lines
//! and a partial last line, which task a record file belongs to, and what the
//! session index and a record's first line say of task names and project
//! paths.

use vstd::prelude::*;

use crate::clock::{now_micros, Micros};
use crate::events::{line_event, parse_line_at};
use crate::json::{json_document, member, parse_json, text_field, text_of};
use crate::keyed::{
    assoc_map, find_key, keys_unique, lemma_assoc_at, lemma_assoc_push,
    lemma_assoc_remove, lemma_assoc_update,
};
use crate::state::{opt_view, set_text_entry, text_map};
use crate::text::{
    chars_eq, chars_of, owned, push_char, string_of, trim_chars, trimmed, utf8_len, utf8_len_exceeds,
};
use crate::watcher::{handled, law_queue_agreement_kept, queue_agrees, SessionWatcher, WatcherView};

verus! {

/// How much of a recent file the first look reads, from its end.
pub const MAX_TAIL_BYTES: u64 = 8 * 1024 * 1024;

/// How much is read from a file in one poll.
pub const MAX_READ_BYTES: u64 = 8 * 1024 * 1024;

/// Lines longer than this, in bytes, are skipped.
pub const MAX_LINE_BYTES: usize = 1024 * 1024;

// ---------------------------------------------------------------------------
// Task ids of record files
// ---------------------------------------------------------------------------

/// Whether `c` is a hexadecimal digit, in either case.
pub open spec fn is_hex_digit(c: char) -> bool {
    ('0' <= c && c <= '9') || ('a' <= c && c <= 'f') || ('A' <= c && c <= 'F')
}

/// The character `c` with an ASCII capital letter put in lower case.
pub open spec fn lower_ascii(c: char) -> char {
    if 'A' <= c && c <= 'Z' {
        ((c as u32) + 32) as char
    } else {
        c
    }
}

/// Whether position `i` of a hyphenated UUID holds a hyphen.
pub open spec fn hyphen_at(i: int) -> bool {
    i == 8 || i == 13 || i == 18 || i == 23
}

/// How many hyphens of a hyphenated UUID stand before position `i`.
pub open spec fn hyphens_before(i: int) -> int {
    (if i > 8 { 1int } else { 0int }) + (if i > 13 { 1int } else { 0int }) + (if i > 18 {
        1int
    } else {
        0int
    }) + (if i > 23 { 1int } else { 0int })
}

/// Whether `s` is 32 hexadecimal digits.
pub open spec fn is_simple_uuid(s: Seq<char>) -> bool {
    s.len() == 32 && forall|i: int| 0 <= i < 32 ==> is_hex_digit(#[trigger] s[i])
}

/// Whether `s` is 32 hexadecimal digits in groups of 8, 4, 4, 4 and 12,
/// joined by hyphens.
pub open spec fn is_hyphenated_uuid(s: Seq<char>) -> bool {
    s.len() == 36 && forall|i: int|
        0 <= i < 36 ==> if hyphen_at(i) {
            #[trigger] s[i] == '-'
        } else {
            is_hex_digit(s[i])
        }
}

/// The hyphenated form, in lower case, of the 32 hexadecimal digits `d`.
pub open spec fn hyphenated_digits(d: Seq<char>) -> Seq<char> {
    Seq::new(
        36,
        |i: int|
            if hyphen_at(i) {
                '-'
            } else {
                lower_ascii(d[i - hyphens_before(i)])
            },
    )
}

/// The canonical form of a UUID text as `uuid` reads it: 32 hexadecimal
/// digits, bare, hyphenated, hyphenated in braces, or hyphenated after
/// `urn:uuid:` in any case; written hyphenated in lower case. `None` for any
/// other text.
pub open spec fn uuid_hyphenated(text: Seq<char>) -> Option<Seq<char>> {
    if is_simple_uuid(text) {
        Some(hyphenated_digits(text))
    } else if is_hyphenated_uuid(text) {
        Some(text.map_values(|c: char| lower_ascii(c)))
    } else if text.len() == 38 && text[0] == '{' && text[37] == '}' && is_hyphenated_uuid(
        text.subrange(1, 37),
    ) {
        Some(text.subrange(1, 37).map_values(|c: char| lower_ascii(c)))
    } else if text.len() == 45 && text.take(9).map_values(|c: char| lower_ascii(c)) == seq![
        'u',
        'r',
        'n',
        ':',
        'u',
        'u',
        'i',
        'd',
        ':',
    ] && is_hyphenated_uuid(text.skip(9)) {
        Some(text.skip(9).map_values(|c: char| lower_ascii(c)))
    } else {
        None
    }
}

/// Parses `text` with `uuid::Uuid::parse_str` and writes the result with
/// `hyphenated`. The contract claims which texts the parser takes (32
/// hexadecimal digits, bare or hyphenated, the hyphenated form also in braces
/// or after `urn:uuid:`) and that the hyphenated form is written in lower
/// case.
#[verifier::external_body]
pub(crate) fn parse_uuid_hyphenated(text: &str) -> (r: Option<String>)
    ensures
        opt_view(r) == uuid_hyphenated(text@),
{
    uuid::Uuid::parse_str(text).ok().map(|id| id.hyphenated().to_string())
}

/// The number of dashes in `s`.
pub open spec fn dash_count(s: Seq<char>) -> nat
    decreases s.len(),
{
    if s.len() == 0 {
        0
    } else {
        (if s[0] == '-' {
            1nat
        } else {
            0nat
        }) + dash_count(s.drop_first())
    }
}

/// The position just after the `n`-th dash counted from the end of `s`.
pub open spec fn after_dash_from_end(s: Seq<char>, n: nat) -> Option<int>
    decreases s.len(),
{
    if n == 0 {
        Some(s.len() as int)
    } else if s.len() == 0 {
        None
    } else if s.last() == '-' {
        if n == 1 {
            Some(s.len() as int)
        } else {
            after_dash_from_end(s.drop_last(), (n - 1) as nat)
        }
    } else {
        after_dash_from_end(s.drop_last(), n)
    }
}

/// Where the last five dash-separated parts of a file name stem begin.
pub open spec fn last_five_parts_start(stem: Seq<char>) -> Option<int> {
    match after_dash_from_end(stem, 5) {
        Some(p) => Some(p),
        None => if dash_count(stem) == 4 {
            Some(0)
        } else {
            None
        },
    }
}

/// The task id of a record file: the last five dash-separated parts of its
/// name stem, when they form a UUID.
pub open spec fn stem_task_id(stem: Seq<char>) -> Option<Seq<char>> {
    match last_five_parts_start(stem) {
        Some(p) => if uuid_hyphenated(stem.skip(p)) is Some {
            Some(stem.skip(p))
        } else {
            None
        },
        None => None,
    }
}

/// The task id of a record file with name stem `stem`.
pub fn task_id_from_stem(stem: &str) -> (r: Option<String>)
    ensures
        opt_view(r) == stem_task_id(stem@),
{
    let cs = chars_of(stem);
    let n = cs.len();
    let mut i: usize = n;
    let mut count: usize = 0;
    let mut start: Option<usize> = None;
    proof {
        assert(cs@.take(n as int) =~= cs@);
        assert(cs@.skip(n as int) =~= Seq::<char>::empty());
    }
    while i > 0 && start.is_none()
        invariant
            n == cs@.len(),
            i <= n,
            count <= 4,
            start.is_none() ==> after_dash_from_end(cs@, 5) == after_dash_from_end(
                cs@.take(i as int),
                (5 - count) as nat,
            ),
            start.is_none() ==> dash_count(cs@.skip(i as int)) == count,
            start.is_none() ==> dash_count(cs@) == dash_count(cs@.take(i as int)) + count,
            start matches Some(p) ==> after_dash_from_end(cs@, 5) == Some(p as int) && p <= n,
        decreases i,
    {
        proof {
            let t = cs@.take(i as int);
            assert(t.drop_last() =~= cs@.take(i - 1));
            assert(t.last() == cs@[i - 1]);
            assert(cs@.skip(i - 1).drop_first() =~= cs@.skip(i as int));
            assert(cs@.skip(i - 1)[0] == cs@[i - 1]);
            lemma_dash_count_split(cs@, i - 1);
            lemma_dash_count_split(cs@.take(i as int), i - 1);
            assert(cs@.take(i as int).take(i - 1) =~= cs@.take(i - 1));
            assert(cs@.take(i as int).skip(i - 1) =~= seq![cs@[i - 1]]);
        }
        if cs[i - 1] == '-' {
            if count == 4 {
                start = Some(i);
            } else {
                count += 1;
            }
        }
        i -= 1;
    }
    let begin = match start {
        Some(p) => p,
        None => {
            proof {
                assert(cs@.take(0) =~= Seq::<char>::empty());
                assert(dash_count(cs@.take(0)) == 0);
            }
            if count == 4 {
                0
            } else {
                return None;
            }
        },
    };
    let mut value: Vec<char> = Vec::new();
    let mut j: usize = begin;
    while j < n
        invariant
            n == cs@.len(),
            begin <= j <= n,
            value@ == cs@.subrange(begin as int, j as int),
        decreases n - j,
    {
        value.push(cs[j]);
        j += 1;
        assert(cs@.subrange(begin as int, j as int) =~= cs@.subrange(begin as int, j - 1).push(
            cs@[j - 1],
        ));
    }
    assert(cs@.subrange(begin as int, n as int) =~= cs@.skip(begin as int));
    let candidate = string_of(&value);
    match parse_uuid_hyphenated(candidate.as_str()) {
        Some(_) => Some(candidate),
        None => None,
    }
}

proof fn lemma_dash_count_split(s: Seq<char>, i: int)
    requires
        0 <= i <= s.len(),
    ensures
        dash_count(s) == dash_count(s.take(i)) + dash_count(s.skip(i)),
    decreases i,
{
    if i == 0 {
        assert(s.skip(0) =~= s);
        assert(s.take(0) =~= Seq::<char>::empty());
    } else {
        lemma_dash_count_split(s.drop_first(), i - 1);
        assert(s.drop_first().take(i - 1) =~= s.take(i).drop_first());
        assert(s.drop_first().skip(i - 1) =~= s.skip(i));
        assert(s.take(i)[0] == s[0]);
    }
}

// ---------------------------------------------------------------------------
// Lines
// ---------------------------------------------------------------------------

/// The parts of `s` between newlines (`str::split('\n')`): one more than the
/// newlines, the last being what follows the last newline.
pub open spec fn split_lines(s: Seq<char>) -> Seq<Seq<char>>
    decreases s.len(),
{
    if s.len() == 0 {
        seq![Seq::<char>::empty()]
    } else {
        let parts = split_lines(s.drop_last());
        if s.last() == '\n' {
            parts.push(Seq::<char>::empty())
        } else {
            parts.update(parts.len() - 1, parts.last().push(s.last()))
        }
    }
}

proof fn lemma_split_nonempty(s: Seq<char>)
    ensures
        split_lines(s).len() >= 1,
    decreases s.len(),
{
    if s.len() > 0 {
        lemma_split_nonempty(s.drop_last());
    }
}

/// The complete lines of `text` and the part after its last newline.
pub fn split_text(text: &str) -> (r: (Vec<String>, String))
    ensures
        r.0@.map_values(|l: String| l@).push(r.1@) == split_lines(text@),
{
    let cs = chars_of(text);
    let mut lines: Vec<String> = Vec::new();
    let mut current = String::new();
    let mut i: usize = 0;
    proof {
        assert(cs@.take(0) =~= Seq::<char>::empty());
        assert(lines@.map_values(|l: String| l@).push(current@) =~= seq![Seq::<char>::empty()]);
    }
    while i < cs.len()
        invariant
            i <= cs@.len(),
            cs@ == text@,
            lines@.map_values(|l: String| l@).push(current@) == split_lines(cs@.take(i as int)),
        decreases cs@.len() - i,
    {
        let ghost before_lines = lines@.map_values(|l: String| l@);
        let ghost before_current = current@;
        proof {
            assert(cs@.take(i + 1).drop_last() =~= cs@.take(i as int));
            assert(cs@.take(i + 1).last() == cs@[i as int]);
            lemma_split_nonempty(cs@.take(i as int));
        }
        if cs[i] == '\n' {
            let mut done = String::new();
            std::mem::swap(&mut done, &mut current);
            lines.push(done);
            proof {
                assert(lines@.map_values(|l: String| l@) =~= before_lines.push(before_current));
                assert(lines@.map_values(|l: String| l@).push(current@) =~= before_lines.push(
                    before_current,
                ).push(Seq::<char>::empty()));
            }
        } else {
            push_char(&mut current, cs[i]);
            proof {
                let parts = before_lines.push(before_current);
                assert(lines@.map_values(|l: String| l@).push(current@) =~= parts.update(
                    parts.len() - 1,
                    parts.last().push(cs@[i as int]),
                ));
            }
        }
        i += 1;
    }
    assert(cs@.take(cs@.len() as int) =~= cs@);
    (lines, current)
}

/// What the complete lines `lines` of the record of `task_id` do, one after
/// the other; lines longer than [`MAX_LINE_BYTES`] are skipped.
pub open spec fn handled_lines(
    w: WatcherView,
    lines: Seq<Seq<char>>,
    task_id: Seq<char>,
    retry: Seq<char>,
    now: Micros,
) -> WatcherView
    decreases lines.len(),
{
    if lines.len() == 0 {
        w
    } else {
        let w1 = handled_lines(w, lines.drop_last(), task_id, retry, now);
        let line = lines.last();
        if utf8_len(line) > MAX_LINE_BYTES {
            w1
        } else {
            match line_event(line, task_id, retry, now) {
                Some(e) => handled(w1, e),
                None => w1,
            }
        }
    }
}

/// Reading the lines of a record keeps the queue in agreement with its key
/// set.
pub proof fn law_queue_agreement_kept_by_lines(
    w: WatcherView,
    lines: Seq<Seq<char>>,
    task_id: Seq<char>,
    retry: Seq<char>,
    now: Micros,
)
    requires
        queue_agrees(w),
    ensures
        queue_agrees(handled_lines(w, lines, task_id, retry, now)),
    decreases lines.len(),
{
    if lines.len() > 0 {
        law_queue_agreement_kept_by_lines(w, lines.drop_last(), task_id, retry, now);
        let w1 = handled_lines(w, lines.drop_last(), task_id, retry, now);
        if utf8_len(lines.last()) <= MAX_LINE_BYTES {
            match line_event(lines.last(), task_id, retry, now) {
                Some(e) => law_queue_agreement_kept(w1, e),
                None => {},
            }
        }
    }
}

/// The offset, in bytes, to which a file has been read.
pub open spec fn offset_map(w: &SessionWatcher) -> Map<Seq<char>, u64> {
    assoc_map(w.offsets@)
}

/// The partial last line kept for each file.
pub open spec fn partial_map(w: &SessionWatcher) -> Map<Seq<char>, Seq<char>> {
    text_map(w.partial_lines@)
}

/// The partial line kept for `path` followed by the new `text`.
pub open spec fn joined_text(w: &SessionWatcher, path: Seq<char>, text: Seq<char>) -> Seq<char> {
    (if partial_map(w).dom().contains(path) {
        partial_map(w)[path]
    } else {
        Seq::<char>::empty()
    }) + text
}

/// How often, in milliseconds, the record files are listed again.
pub const DISCOVERY_INTERVAL_MILLIS: u64 = 5000;

/// Whether the record files are due to be listed again, given the
/// milliseconds since they were last listed (`None`: never).
pub fn discovery_due(since_last_millis: Option<u64>) -> (r: bool)
    ensures
        r == match since_last_millis {
            Some(ms) => ms >= DISCOVERY_INTERVAL_MILLIS,
            None => true,
        },
{
    match since_last_millis {
        Some(ms) => ms >= DISCOVERY_INTERVAL_MILLIS,
        None => true,
    }
}

/// The partial lines kept once `text` was read from `path`: the text after
/// the last line break, unless it is empty after a break or longer than
/// [`MAX_LINE_BYTES`].
pub open spec fn partial_after(w: &SessionWatcher, path: Seq<char>, text: Seq<char>) -> Map<
    Seq<char>,
    Seq<char>,
> {
    let parts = split_lines(joined_text(w, path, text));
    let rest = parts.last();
    if (rest.len() > 0 || parts.len() == 1) && utf8_len(rest) <= MAX_LINE_BYTES {
        partial_map(w).insert(path, rest)
    } else {
        partial_map(w).remove(path)
    }
}

impl SessionWatcher {
    /// Sets the offset of `path`.
    fn set_offset(&mut self, path: &str, offset: u64)
        requires
            old(self).wf(),
        ensures
            final(self).wf(),
            final(self)@ == old(self)@,
            offset_map(final(self)) == offset_map(old(self)).insert(path@, offset),
            final(self).partial_lines == old(self).partial_lines,
            final(self).known_files == old(self).known_files,
            final(self).root == old(self).root,
    {
        match find_key(&self.offsets, path) {
            Some(i) => {
                let k = self.offsets[i].0.clone();
                proof {
                    lemma_assoc_update(self.offsets@, i as int, k, offset);
                }
                self.offsets.set(i, (k, offset));
            },
            None => {
                let k = owned(path);
                proof {
                    lemma_assoc_push(self.offsets@, k, offset);
                }
                self.offsets.push((k, offset));
            },
        }
    }

    /// Takes the partial last line kept for `path`, if any.
    fn take_partial(&mut self, path: &str) -> (r: Option<String>)
        requires
            old(self).wf(),
        ensures
            final(self).wf(),
            final(self)@ == old(self)@,
            opt_view(r) == if partial_map(old(self)).dom().contains(path@) {
                Some(partial_map(old(self))[path@])
            } else {
                None
            },
            partial_map(final(self)) == partial_map(old(self)).remove(path@),
            final(self).offsets == old(self).offsets,
            final(self).known_files == old(self).known_files,
            final(self).root == old(self).root,
    {
        match find_key(&self.partial_lines, path) {
            Some(i) => {
                proof {
                    lemma_assoc_at(self.partial_lines@, i as int);
                    lemma_assoc_remove(self.partial_lines@, i as int);
                }
                let (_, line) = self.partial_lines.remove(i);
                proof {
                    assert(partial_map(self) =~= partial_map(old(self)).remove(path@));
                }
                Some(line)
            },
            None => {
                assert(partial_map(self) =~= partial_map(old(self)).remove(path@));
                None
            },
        }
    }

    /// Keeps `line` as the partial last line of `path`.
    fn put_partial(&mut self, path: &str, line: String)
        requires
            old(self).wf(),
            !partial_map(old(self)).dom().contains(path@),
        ensures
            final(self).wf(),
            final(self)@ == old(self)@,
            partial_map(final(self)) == partial_map(old(self)).insert(path@, line@),
            final(self).offsets == old(self).offsets,
            final(self).known_files == old(self).known_files,
            final(self).root == old(self).root,
    {
        let k = owned(path);
        proof {
            lemma_assoc_push(self.partial_lines@, k, line);
        }
        self.partial_lines.push((k, line));
        proof {
            assert(partial_map(self) =~= partial_map(old(self)).insert(path@, line@));
        }
    }

    /// Decides where reading a file found in this poll starts. A file seen
    /// for the first time is read from the end when it was not changed
    /// recently, and otherwise from at most [`MAX_TAIL_BYTES`] before its end;
    /// the result tells whether to read it now.
    pub fn begin_file(&mut self, path: &str, size: u64, recent: bool) -> (r: bool)
        requires
            old(self).wf(),
        ensures
            final(self).wf(),
            final(self)@ == old(self)@,
            offset_map(old(self)).dom().contains(path@) ==> r && offset_map(final(self))
                == offset_map(old(self)),
            !offset_map(old(self)).dom().contains(path@) ==> r == recent && offset_map(
                final(self),
            ) == offset_map(old(self)).insert(
                path@,
                if !recent {
                    size
                } else if size >= MAX_TAIL_BYTES {
                    (size - MAX_TAIL_BYTES) as u64
                } else {
                    0
                },
            ),
            final(self).partial_lines == old(self).partial_lines,
            final(self).known_files == old(self).known_files,
    {
        match find_key(&self.offsets, path) {
            Some(i) => {
                proof {
                    lemma_assoc_at(self.offsets@, i as int);
                }
                true
            },
            None => {
                if !recent {
                    self.set_offset(path, size);
                    false
                } else {
                    let start = size.saturating_sub(MAX_TAIL_BYTES);
                    self.set_offset(path, start);
                    true
                }
            },
        }
    }

    /// Where to read a file of `size` bytes from: its offset, or the start
    /// when the file shrank (its partial line is then dropped); `None` when
    /// nothing new is there.
    pub fn delta_start(&mut self, path: &str, size: u64) -> (r: Option<u64>)
        requires
            old(self).wf(),
        ensures
            final(self).wf(),
            final(self)@ == old(self)@,
            ({
                let stored = if offset_map(old(self)).dom().contains(path@) {
                    offset_map(old(self))[path@]
                } else {
                    0
                };
                let start = if size < stored {
                    0
                } else {
                    stored
                };
                &&& r == if size == start {
                    None::<u64>
                } else {
                    Some(start)
                }
                &&& partial_map(final(self)) == if size < stored {
                    partial_map(old(self)).remove(path@)
                } else {
                    partial_map(old(self))
                }
            }),
            final(self).offsets == old(self).offsets,
            final(self).known_files == old(self).known_files,
    {
        let stored = match find_key(&self.offsets, path) {
            Some(i) => {
                proof {
                    lemma_assoc_at(self.offsets@, i as int);
                }
                self.offsets[i].1
            },
            None => 0,
        };
        let start = if size < stored {
            let _ = self.take_partial(path);
            0
        } else {
            stored
        };
        if size == start {
            None
        } else {
            Some(start)
        }
    }

    /// Takes in the text read from `path` starting at `offset`: the offset
    /// moves past the `read_len` bytes read, the text is joined to the partial
    /// line kept, and each complete line is read as an event of `task_id`
    /// (none when the file belongs to no task). `now` stands for the time of
    /// lines that give none.
    pub fn ingest_delta_at(
        &mut self,
        path: &str,
        offset: u64,
        text: &str,
        read_len: u64,
        task_id: Option<&str>,
        now: Micros,
    )
        requires
            old(self).wf(),
            offset + read_len <= u64::MAX,
        ensures
            final(self).wf(),
            offset_map(final(self)) == offset_map(old(self)).insert(path@, (offset + read_len) as u64),
            ({
                let prefix = if partial_map(old(self)).dom().contains(path@) {
                    partial_map(old(self))[path@]
                } else {
                    Seq::<char>::empty()
                };
                let parts = split_lines(prefix + text@);
                let rest = parts.last();
                let complete = parts.drop_last();
                &&& partial_map(final(self)) == if (rest.len() > 0 || parts.len() == 1) && utf8_len(rest)
                    <= MAX_LINE_BYTES {
                    partial_map(old(self)).insert(path@, rest)
                } else {
                    partial_map(old(self)).remove(path@)
                }
                &&& final(self)@ == match task_id {
                    Some(t) => handled_lines(old(self)@, complete, t@, old(self)@.retry, now),
                    None => old(self)@,
                }
            }),
            queue_agrees(old(self)@) ==> queue_agrees(final(self)@),
            final(self).known_files == old(self).known_files,
            final(self).root == old(self).root,
    {
        self.set_offset(path, offset + read_len);
        let prefix = match self.take_partial(path) {
            Some(p) => p,
            None => String::new(),
        };
        let mut combined = prefix;
        crate::text::push_str(&mut combined, text);
        let (lines, rest) = split_text(combined.as_str());
        proof {
            assert(combined@ == joined_text(old(self), path@, text@));
            lemma_split_nonempty(combined@);
            let parts = split_lines(combined@);
            assert(parts.drop_last() =~= lines@.map_values(|l: String| l@));
            assert(parts.last() == rest@);
            assert(parts.len() == lines@.len() + 1);
        }
        let keep_rest = (!rest.as_str().is_empty() || lines.len() == 0) && !utf8_len_exceeds(
            rest.as_str(),
            MAX_LINE_BYTES,
        );
        let ghost rest_view = rest@;
        if keep_rest {
            self.put_partial(path, rest);
        }
        let task = match task_id {
            Some(t) => t,
            None => return,
        };
        let retry = self.retry_message.clone();
        let ghost start = self@;
        let ghost ls = lines@.map_values(|l: String| l@);
        let mut i: usize = 0;
        proof {
            assert(ls.take(0) =~= Seq::<Seq<char>>::empty());
        }
        while i < lines.len()
            invariant
                self.wf(),
                i <= lines@.len(),
                ls == lines@.map_values(|l: String| l@),
                retry@ == start.retry,
                self@ == handled_lines(start, ls.take(i as int), task@, start.retry, now),
                offset_map(self) == offset_map(old(self)).insert(path@, (offset + read_len) as u64),
                partial_map(self) == if keep_rest {
                    partial_map(old(self)).insert(path@, rest_view)
                } else {
                    partial_map(old(self)).remove(path@)
                },
                self.known_files == old(self).known_files,
                self.root == old(self).root,
            decreases lines@.len() - i,
        {
            proof {
                assert(ls.take(i + 1).drop_last() =~= ls.take(i as int));
                assert(ls.take(i + 1).last() == lines@[i as int]@);
                lemma_retry_kept(start, ls.take(i as int), task@, now);
            }
            let line = lines[i].as_str();
            let ghost before = self@;
            proof {
                let t1 = ls.take(i + 1);
                assert(t1.last() == ls[i as int]);
                assert(ls[i as int] == lines@[i as int]@);
                assert(line@ == lines@[i as int]@);
                assert(handled_lines(start, ls.take(i as int), task@, start.retry, now) == before);
            }
            if !utf8_len_exceeds(line, MAX_LINE_BYTES) {
                match parse_line_at(line, task, retry.as_str(), now) {
                    Some(event) => {
                        self.handle(event);
                        assert(self@ == handled(before, event@));
                    },
                    None => {},
                }
            } else {
                assert(utf8_len(line@) > MAX_LINE_BYTES);
            }
            assert(self@ == handled_lines(start, ls.take(i + 1), task@, start.retry, now));
            i += 1;
        }
        assert(ls.take(lines@.len() as int) =~= ls);
        proof {
            if queue_agrees(start) {
                law_queue_agreement_kept_by_lines(start, ls, task@, start.retry, now);
            }
        }
    }

    /// Takes in the text read from `path`, reading the clock once for the lines
    /// that give no time.
    pub fn ingest_delta(
        &mut self,
        path: &str,
        offset: u64,
        text: &str,
        read_len: u64,
        task_id: Option<&str>,
    )
        requires
            old(self).wf(),
            offset + read_len <= u64::MAX,
        ensures
            final(self).wf(),
            offset_map(final(self)) == offset_map(old(self)).insert(path@, (offset + read_len) as u64),
            partial_map(final(self)) == partial_after(old(self), path@, text@),
            final(self).known_files == old(self).known_files,
            final(self).root == old(self).root,
            match task_id {
                None => final(self)@ == old(self)@,
                Some(t) => exists|now: Micros|
                    final(self)@ == #[trigger] handled_lines(
                        old(self)@,
                        split_lines(joined_text(old(self), path@, text@)).drop_last(),
                        t@,
                        old(self)@.retry,
                        now,
                    ),
            },
            queue_agrees(old(self)@) ==> queue_agrees(final(self)@),
    {
        let now = now_micros();
        self.ingest_delta_at(path, offset, text, read_len, task_id, now);
        proof {
            match task_id {
                Some(t) => {
                    assert(self@ == handled_lines(
                        old(self)@,
                        split_lines(joined_text(old(self), path@, text@)).drop_last(),
                        t@,
                        old(self)@.retry,
                        now,
                    ));
                },
                None => {},
            }
        }
    }

    /// Ends a poll: the first look at the records is over.
    pub fn finish_poll(&mut self)
        ensures
            final(self)@ == crate::watcher::cutoff_cleared(old(self)@),
            final(self).wf() == old(self).wf(),
            final(self).offsets == old(self).offsets,
            final(self).partial_lines == old(self).partial_lines,
            final(self).known_files == old(self).known_files,
    {
        self.initial_cutoff = None;
    }
}

proof fn lemma_retry_kept(w: WatcherView, lines: Seq<Seq<char>>, task_id: Seq<char>, now: Micros)
    ensures
        handled_lines(w, lines, task_id, w.retry, now).retry == w.retry,
    decreases lines.len(),
{
    if lines.len() > 0 {
        lemma_retry_kept(w, lines.drop_last(), task_id, now);
    }
}

// ---------------------------------------------------------------------------
// Task names and project paths
// ---------------------------------------------------------------------------

/// The task names that lines of the session index give: each line that is a
/// JSON record with a string `id` and a non-blank string `thread_name` names
/// that task, trimmed; a later line wins. Lines longer than
/// [`MAX_LINE_BYTES`] are skipped.
pub open spec fn index_names(lines: Seq<Seq<char>>) -> Map<Seq<char>, Seq<char>>
    decreases lines.len(),
{
    if lines.len() == 0 {
        Map::empty()
    } else {
        let m = index_names(lines.drop_last());
        let line = lines.last();
        if utf8_len(line) > MAX_LINE_BYTES {
            m
        } else {
            match json_document(line) {
                Some(record) => match (
                    text_field(Some(record), "id"@),
                    text_field(Some(record), "thread_name"@),
                ) {
                    (Some(id), Some(name)) => if trimmed(name).len() > 0 {
                        m.insert(id, trimmed(name))
                    } else {
                        m
                    },
                    _ => m,
                },
                None => m,
            }
        }
    }
}

/// The task names that the lines of the session index give.
pub fn task_names_from_lines(lines: &Vec<String>) -> (r: Vec<(String, String)>)
    ensures
        keys_unique(r@),
        text_map(r@) == index_names(lines@.map_values(|l: String| l@)),
{
    let ghost ls = lines@.map_values(|l: String| l@);
    let mut names: Vec<(String, String)> = Vec::new();
    let mut i: usize = 0;
    proof {
        assert(ls.take(0) =~= Seq::<Seq<char>>::empty());
        assert(text_map(names@) =~= Map::<Seq<char>, Seq<char>>::empty());
    }
    while i < lines.len()
        invariant
            ls == lines@.map_values(|l: String| l@),
            i <= lines@.len(),
            keys_unique(names@),
            text_map(names@) == index_names(ls.take(i as int)),
        decreases lines@.len() - i,
    {
        proof {
            assert(ls.take(i + 1).drop_last() =~= ls.take(i as int));
            assert(ls.take(i + 1).last() == lines@[i as int]@);
        }
        let line = lines[i].as_str();
        if !utf8_len_exceeds(line, MAX_LINE_BYTES) {
            match parse_json(line) {
                Some(record) => {
                    match (text_of(record.get("id")), text_of(record.get("thread_name"))) {
                        (Some(id), Some(name)) => {
                            let name = trim_chars(&name);
                            if name.len() > 0 {
                                let id = string_of(&id);
                                set_text_entry(&mut names, id.as_str(), string_of(&name));
                            }
                        },
                        _ => {},
                    }
                },
                None => {},
            }
        }
        i += 1;
    }
    assert(ls.take(lines@.len() as int) =~= ls);
    names
}

/// The project path that the first line of a record gives: the trimmed,
/// non-blank `payload.cwd` of a `session_meta` record. A line longer than
/// [`MAX_LINE_BYTES`] gives none.
pub open spec fn first_line_project_path(line: Seq<char>) -> Option<Seq<char>> {
    if utf8_len(line) > MAX_LINE_BYTES {
        None
    } else {
        match json_document(line) {
            Some(record) => if text_field(Some(record), "type"@) == Some("session_meta"@) {
                match text_field(record.field("payload"@), "cwd"@) {
                    Some(cwd) => if trimmed(cwd).len() > 0 {
                        Some(trimmed(cwd))
                    } else {
                        None
                    },
                    None => None,
                }
            } else {
                None
            },
            None => None,
        }
    }
}

/// The project path that the first line of a record gives.
pub fn project_path_from_first_line(line: &str) -> (r: Option<String>)
    ensures
        opt_view(r) == first_line_project_path(line@),
{
    if utf8_len_exceeds(line, MAX_LINE_BYTES) {
        return None;
    }
    let record = match parse_json(line) {
        Some(r) => r,
        None => return None,
    };
    let is_meta = match text_of(record.get("type")) {
        Some(t) => chars_eq(&t, &chars_of("session_meta")),
        None => false,
    };
    if !is_meta {
        return None;
    }
    match text_of(member(record.get("payload"), "cwd")) {
        Some(cwd) => {
            let t = trim_chars(&cwd);
            if t.len() > 0 {
                Some(string_of(&t))
            } else {
                None
            }
        },
        None => None,
    }
}

/// The map after each entry of `s` is set in turn.
pub open spec fn with_entries(m: Map<Seq<char>, Seq<char>>, s: Seq<(String, String)>) -> Map<
    Seq<char>,
    Seq<char>,
>
    decreases s.len(),
{
    if s.len() == 0 {
        m
    } else {
        with_entries(m, s.drop_last()).insert(s.last().0@, s.last().1@)
    }
}

/// The watcher after it takes the task names `names`: every known task named
/// there takes that name.
pub open spec fn names_applied(w: WatcherView, names: Map<Seq<char>, Seq<char>>) -> WatcherView {
    WatcherView {
        registry: Map::new(
            |k: Seq<char>| w.registry.dom().contains(k),
            |k: Seq<char>| crate::state::renamed(w.registry[k], names),
        ),
        task_names: names,
        ..w
    }
}

/// The watcher with the project paths `paths` remembered.
pub open spec fn with_paths(w: WatcherView, paths: Map<Seq<char>, Seq<char>>) -> WatcherView {
    WatcherView { task_project_paths: paths, ..w }
}

/// The watcher after it takes the project paths `paths`: every known task
/// listed there takes its path.
pub open spec fn paths_applied(w: WatcherView, paths: Map<Seq<char>, Seq<char>>) -> WatcherView {
    WatcherView {
        registry: Map::new(
            |k: Seq<char>| w.registry.dom().contains(k),
            |k: Seq<char>| crate::state::relocated(w.registry[k], paths),
        ),
        task_project_paths: paths,
        ..w
    }
}

impl SessionWatcher {
    /// Takes the task names read from the session index: every known task
    /// named there takes that name, and later events use them.
    pub fn apply_task_names(&mut self, names: Vec<(String, String)>)
        requires
            old(self).wf(),
            keys_unique(names@),
        ensures
            final(self).wf(),
            final(self)@ == names_applied(old(self)@, text_map(names@)),
    {
        self.registry.sync_names(&names);
        self.task_names = names;
    }

    /// Whether the project path of `task_id` is known.
    pub fn knows_project_path(&self, task_id: &str) -> (r: bool)
        requires
            self.wf(),
        ensures
            r == self@.task_project_paths.dom().contains(task_id@),
    {
        find_key(&self.task_project_paths, task_id).is_some()
    }

    /// Takes the project paths found in records: each is remembered (a later
    /// one for the same task wins), and every known task listed takes its
    /// path.
    pub fn record_project_paths(&mut self, found: Vec<(String, String)>)
        requires
            old(self).wf(),
        ensures
            final(self).wf(),
            final(self)@ == paths_applied(
                old(self)@,
                with_entries(old(self)@.task_project_paths, found@),
            ),
    {
        let mut i: usize = 0;
        assert(found@.take(0) =~= Seq::<(String, String)>::empty());
        while i < found.len()
            invariant
                self.wf(),
                i <= found@.len(),
                self@ == with_paths(
                    old(self)@,
                    with_entries(old(self)@.task_project_paths, found@.take(i as int)),
                ),
            decreases found@.len() - i,
        {
            let value = found[i].1.clone();
            set_text_entry(&mut self.task_project_paths, found[i].0.as_str(), value);
            proof {
                assert(found@.take(i + 1).drop_last() =~= found@.take(i as int));
            }
            i += 1;
        }
        assert(found@.take(found@.len() as int) =~= found@);
        self.registry.sync_project_paths(&self.task_project_paths);
    }
}

// ---------------------------------------------------------------------------
// Laws
// ---------------------------------------------------------------------------

proof fn lemma_split_without_newline(s: Seq<char>)
    requires
        !s.contains('\n'),
    ensures
        split_lines(s) == seq![s],
    decreases s.len(),
{
    if s.len() > 0 {
        assert(!s.drop_last().contains('\n')) by {
            if s.drop_last().contains('\n') {
                let i = choose|i: int| 0 <= i < s.drop_last().len() && s.drop_last()[i] == '\n';
                assert(s[i] == '\n');
            }
        }
        lemma_split_without_newline(s.drop_last());
        assert(s.last() != '\n') by {
            assert(s[s.len() - 1] == s.last());
        }
        assert(s.drop_last().push(s.last()) =~= s);
        assert(seq![s.drop_last()].update(0, s.drop_last().push(s.last())) =~= seq![s]);
    } else {
        assert(s =~= Seq::<char>::empty());
    }
}

/// Text without a line break is never acted on: it is all kept as the line
/// being written, and no event is read from it.
pub proof fn law_unfinished_line_is_not_read(
    w: WatcherView,
    text: Seq<char>,
    task_id: Seq<char>,
    retry: Seq<char>,
    now: Micros,
)
    requires
        !text.contains('\n'),
    ensures
        split_lines(text).last() == text,
        handled_lines(w, split_lines(text).drop_last(), task_id, retry, now) == w,
{
    lemma_split_without_newline(text);
    assert(split_lines(text).drop_last() =~= Seq::<Seq<char>>::empty());
}

} // verus!
