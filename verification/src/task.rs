//! The task record and the line grammar: a single left-to-right scan
//! decomposes a raw line into completion state, priority, dates, free-text
//! subject and embedded metadata tokens, and a formatter renders the record
//! back into canonical textual form.
//!
//! The token scan is a finite-state machine over the characters after the
//! header.  Contexts (`@x`), projects (`+x`) and hashtags (`#x`) are
//! registered and kept in the subject verbatim; `key:value` tags are
//! registered and removed from the subject together with one adjacent
//! delimiter space.  A pending tag key that reverts on a space (no colon
//! reached) stays part of the subject verbatim.

use vstd::prelude::*;

use crate::date::Date;
use crate::date::append_date;
use crate::date::date_chars;
use crate::date::parse_date_range;
use crate::date::spec_parse_date;
use crate::recurrence::Recurrence;
use crate::recurrence::append_rec;
use crate::recurrence::parse_rec_range;
use crate::recurrence::rec_chars;
use crate::recurrence::spec_parse_rec;
use crate::text::append_chars;
use crate::text::char_is;
use crate::text::chars_of;
use crate::text::string_of;

verus! {

/// The parsed representation of one task line.
#[derive(Debug, PartialEq, Eq, Default)]
pub struct Task {
    pub subject: String,
    pub priority: u8,
    pub create_date: Option<Date>,
    pub finish_date: Option<Date>,
    pub finished: bool,
    pub threshold_date: Option<Date>,
    pub due_date: Option<Date>,
    pub recurrence: Option<Recurrence>,
    pub contexts: Vec<String>,
    pub projects: Vec<String>,
    pub hashtags: Vec<String>,
    pub tags: Vec<(String, String)>,
}

/// The mathematical model of a task record: the same fields over sequences.
pub ghost struct TaskView {
    pub subject: Seq<char>,
    pub priority: u8,
    pub create_date: Option<Date>,
    pub finish_date: Option<Date>,
    pub finished: bool,
    pub threshold_date: Option<Date>,
    pub due_date: Option<Date>,
    pub recurrence: Option<Recurrence>,
    pub contexts: Seq<Seq<char>>,
    pub projects: Seq<Seq<char>>,
    pub hashtags: Seq<Seq<char>>,
    pub tags: Seq<(Seq<char>, Seq<char>)>,
}

impl View for Task {
    type V = TaskView;

    open spec fn view(&self) -> TaskView {
        TaskView {
            subject: self.subject@,
            priority: self.priority,
            create_date: self.create_date,
            finish_date: self.finish_date,
            finished: self.finished,
            threshold_date: self.threshold_date,
            due_date: self.due_date,
            recurrence: self.recurrence,
            contexts: self.contexts.deep_view(),
            projects: self.projects.deep_view(),
            hashtags: self.hashtags.deep_view(),
            tags: self.tags.deep_view(),
        }
    }
}

/// True of the ASCII lowercase letters, the characters that may start a tag key.
pub open spec fn is_lower(c: char) -> bool {
    97 <= c as int <= 122
}

/// The scanner's state: which token, if any, is pending, and its text so far.
pub ghost enum ScanState {
    Init,
    Ctx(Seq<char>),
    Prj(Seq<char>),
    Hash(Seq<char>),
    Key(Seq<char>),
    KeyVal(Seq<char>, Seq<char>),
}

/// Everything the scanner has accumulated.
pub ghost struct ScanAcc {
    pub subject: Seq<char>,
    pub contexts: Seq<Seq<char>>,
    pub projects: Seq<Seq<char>>,
    pub hashtags: Seq<Seq<char>>,
    pub tags: Seq<(Seq<char>, Seq<char>)>,
    pub threshold_date: Option<Date>,
    pub due_date: Option<Date>,
    pub recurrence: Option<Recurrence>,
}

/// The scanner's starting accumulator: everything empty or absent.
pub open spec fn empty_acc() -> ScanAcc {
    ScanAcc {
        subject: Seq::<char>::empty(),
        contexts: Seq::<Seq<char>>::empty(),
        projects: Seq::<Seq<char>>::empty(),
        hashtags: Seq::<Seq<char>>::empty(),
        tags: Seq::<(Seq<char>, Seq<char>)>::empty(),
        threshold_date: None,
        due_date: None,
        recurrence: None,
    }
}

/// Stores `k -> v` in the tag listing: the value of an existing key is
/// overwritten in place (last write wins), a new key is appended.
pub open spec fn tags_insert(
    tags: Seq<(Seq<char>, Seq<char>)>,
    k: Seq<char>,
    v: Seq<char>,
) -> Seq<(Seq<char>, Seq<char>)>
    decreases tags.len(),
{
    if tags.len() == 0 {
        seq![(k, v)]
    } else if tags[0].0 == k {
        seq![(k, v)] + tags.drop_first()
    } else {
        seq![tags[0]] + tags_insert(tags.drop_first(), k, v)
    }
}

/// Applies one closed `key:value` tag to the accumulator.  The three
/// reserved keys `rec`, `due` and `t` set their dedicated field to the
/// value's parse (absent when the value is malformed); every other key
/// goes to the generic tag listing.
pub open spec fn apply_tag(acc: ScanAcc, k: Seq<char>, v: Seq<char>) -> ScanAcc {
    if k == seq!['r', 'e', 'c'] {
        ScanAcc { recurrence: spec_parse_rec(v), ..acc }
    } else if k == seq!['d', 'u', 'e'] {
        ScanAcc { due_date: spec_parse_date(v), ..acc }
    } else if k == seq!['t'] {
        ScanAcc { threshold_date: spec_parse_date(v), ..acc }
    } else {
        ScanAcc { tags: tags_insert(acc.tags, k, v), ..acc }
    }
}

/// One transition of the token scanner on character `c`.
pub open spec fn scan_step(st: ScanState, acc: ScanAcc, c: char) -> (ScanState, ScanAcc) {
    match st {
        ScanState::Init => {
            if c == '@' {
                (ScanState::Ctx(Seq::<char>::empty()), acc)
            } else if c == '+' {
                (ScanState::Prj(Seq::<char>::empty()), acc)
            } else if c == '#' {
                (ScanState::Hash(Seq::<char>::empty()), acc)
            } else if is_lower(c) {
                (ScanState::Key(seq![c]), acc)
            } else {
                (ScanState::Init, ScanAcc { subject: acc.subject.push(c), ..acc })
            }
        },
        ScanState::Ctx(p) => {
            if c == ' ' {
                (
                    ScanState::Init,
                    ScanAcc {
                        contexts: if p.len() > 0 {
                            acc.contexts.push(p)
                        } else {
                            acc.contexts
                        },
                        subject: acc.subject + seq!['@'] + p + seq![' '],
                        ..acc
                    },
                )
            } else {
                (ScanState::Ctx(p.push(c)), acc)
            }
        },
        ScanState::Prj(p) => {
            if c == ' ' {
                (
                    ScanState::Init,
                    ScanAcc {
                        projects: if p.len() > 0 {
                            acc.projects.push(p)
                        } else {
                            acc.projects
                        },
                        subject: acc.subject + seq!['+'] + p + seq![' '],
                        ..acc
                    },
                )
            } else {
                (ScanState::Prj(p.push(c)), acc)
            }
        },
        ScanState::Hash(p) => {
            if c == ' ' {
                (
                    ScanState::Init,
                    ScanAcc {
                        hashtags: if p.len() > 0 {
                            acc.hashtags.push(p)
                        } else {
                            acc.hashtags
                        },
                        subject: acc.subject + seq!['#'] + p + seq![' '],
                        ..acc
                    },
                )
            } else {
                (ScanState::Hash(p.push(c)), acc)
            }
        },
        ScanState::Key(p) => {
            if c == ':' {
                (ScanState::KeyVal(p, Seq::<char>::empty()), acc)
            } else if c == ' ' {
                (ScanState::Init, ScanAcc { subject: acc.subject + p + seq![' '], ..acc })
            } else {
                (ScanState::Key(p.push(c)), acc)
            }
        },
        ScanState::KeyVal(k, v) => {
            if c == ' ' {
                (
                    ScanState::Init,
                    if v.len() > 0 {
                        apply_tag(acc, k, v)
                    } else {
                        acc
                    },
                )
            } else {
                (ScanState::KeyVal(k, v.push(c)), acc)
            }
        },
    }
}

/// Removes one trailing space, if the sequence ends with one.
pub open spec fn strip_trailing_space(s: Seq<char>) -> Seq<char> {
    if s.len() > 0 && s.last() == ' ' {
        s.drop_last()
    } else {
        s
    }
}

/// Closes whatever token is pending at the end of the line, with the same
/// rules as a space-triggered close; a closed tag also takes its preceding
/// delimiter space out of the subject.
pub open spec fn scan_finish(st: ScanState, acc: ScanAcc) -> ScanAcc {
    match st {
        ScanState::Init => acc,
        ScanState::Ctx(p) => ScanAcc {
            contexts: if p.len() > 0 {
                acc.contexts.push(p)
            } else {
                acc.contexts
            },
            subject: acc.subject + seq!['@'] + p,
            ..acc
        },
        ScanState::Prj(p) => ScanAcc {
            projects: if p.len() > 0 {
                acc.projects.push(p)
            } else {
                acc.projects
            },
            subject: acc.subject + seq!['+'] + p,
            ..acc
        },
        ScanState::Hash(p) => ScanAcc {
            hashtags: if p.len() > 0 {
                acc.hashtags.push(p)
            } else {
                acc.hashtags
            },
            subject: acc.subject + seq!['#'] + p,
            ..acc
        },
        ScanState::Key(p) => ScanAcc { subject: acc.subject + p, ..acc },
        ScanState::KeyVal(k, v) => {
            let acc1 = if v.len() > 0 {
                apply_tag(acc, k, v)
            } else {
                acc
            };
            ScanAcc { subject: strip_trailing_space(acc1.subject), ..acc1 }
        },
    }
}

/// Runs the scanner over all of `s` from the given state and accumulator.
pub open spec fn scan_run(s: Seq<char>, st: ScanState, acc: ScanAcc) -> (ScanState, ScanAcc)
    decreases s.len(),
{
    if s.len() == 0 {
        (st, acc)
    } else {
        let prev = scan_run(s.drop_last(), st, acc);
        scan_step(prev.0, prev.1, s.last())
    }
}

/// A `YYYY-MM-DD` date standing in the first ten characters and followed by
/// a space.
pub open spec fn date_head(s: Seq<char>) -> Option<Date> {
    if s.len() >= 11 && s[10] == ' ' {
        spec_parse_date(s.take(10))
    } else {
        None
    }
}

/// The line's header: completion marker, tentative finish date, priority
/// marker and creation date, with the remaining text.
pub ghost struct Header {
    pub finished: bool,
    pub finish_date: Option<Date>,
    pub priority: u8,
    pub create_date: Option<Date>,
    pub rest: Seq<char>,
}

/// Reads the header off the front of a line, left to right: the completion
/// marker `x `, then a tentative finish date, then a priority marker
/// `(A) `..`(Z) `, then a creation date.  When no priority marker separates
/// them and no creation date follows, a lone date after the completion
/// marker is the creation date, not the finish date.
pub open spec fn spec_header(s: Seq<char>) -> Header {
    let finished = s.len() >= 2 && s[0] == 'x' && s[1] == ' ';
    let s1 = if finished {
        s.skip(2)
    } else {
        s
    };
    let fin0 = if finished {
        date_head(s1)
    } else {
        None
    };
    let s2 = if fin0 is Some {
        s1.skip(11)
    } else {
        s1
    };
    let prio_marker = s2.len() >= 4 && s2[0] == '(' && s2[2] == ')' && s2[3] == ' ' && 65
        <= s2[1] as int <= 90;
    let prio = if prio_marker {
        (s2[1] as int - 65) as u8
    } else {
        26u8
    };
    let s3 = if prio_marker {
        s2.skip(4)
    } else {
        s2
    };
    let create0 = date_head(s3);
    let s4 = if create0 is Some {
        s3.skip(11)
    } else {
        s3
    };
    if prio == 26 && fin0 is Some && create0 is None {
        Header {
            finished,
            finish_date: None,
            priority: prio,
            create_date: fin0,
            rest: s4,
        }
    } else {
        Header {
            finished,
            finish_date: fin0,
            priority: prio,
            create_date: create0,
            rest: s4,
        }
    }
}

/// The record that parsing a whole line yields: the header fields, and the
/// token scan of the remaining text.
pub open spec fn spec_parse_task(s: Seq<char>) -> TaskView {
    let h = spec_header(s);
    let run = scan_run(h.rest, ScanState::Init, empty_acc());
    let acc = scan_finish(run.0, run.1);
    TaskView {
        subject: acc.subject,
        priority: h.priority,
        create_date: h.create_date,
        finish_date: h.finish_date,
        finished: h.finished,
        threshold_date: acc.threshold_date,
        due_date: acc.due_date,
        recurrence: acc.recurrence,
        contexts: acc.contexts,
        projects: acc.projects,
        hashtags: acc.hashtags,
        tags: acc.tags,
    }
}

/// The priority letter: `'A'` for 0 up to `'Z'` for 25.
pub open spec fn prio_char(p: u8) -> char {
    ((65 + p as int) as u8) as char
}

/// The rendering of one generic tag entry: a space, the key, a colon, the
/// value.
pub open spec fn tag_chunk(p: (Seq<char>, Seq<char>)) -> Seq<char> {
    seq![' '] + p.0 + seq![':'] + p.1
}

/// The rendering of the generic tag listing, in its stored order.
pub open spec fn tags_chars(tags: Seq<(Seq<char>, Seq<char>)>) -> Seq<char>
    decreases tags.len(),
{
    if tags.len() == 0 {
        Seq::<char>::empty()
    } else {
        tags_chars(tags.drop_last()) + tag_chunk(tags.last())
    }
}

/// A date with a trailing space, or nothing when the date is absent.
pub open spec fn opt_date_head_chars(d: Option<Date>) -> Seq<char> {
    match d {
        Some(d) => date_chars(d) + seq![' '],
        None => Seq::<char>::empty(),
    }
}

/// The rendered `due:` tag, or nothing when the date is absent.
pub open spec fn due_chunk(d: Option<Date>) -> Seq<char> {
    match d {
        Some(d) => seq![' ', 'd', 'u', 'e', ':'] + date_chars(d),
        None => Seq::<char>::empty(),
    }
}

/// The rendered `t:` tag, or nothing when the date is absent.
pub open spec fn threshold_chunk(d: Option<Date>) -> Seq<char> {
    match d {
        Some(d) => seq![' ', 't', ':'] + date_chars(d),
        None => Seq::<char>::empty(),
    }
}

/// The rendered `rec:` tag, or nothing when the recurrence is absent: one
/// space, then the recurrence rendering, which itself carries the `rec:`
/// key, so the line holds the prefix exactly once.
pub open spec fn rec_chunk(r: Option<Recurrence>) -> Seq<char> {
    match r {
        Some(r) => seq![' '] + rec_chars(r),
        None => Seq::<char>::empty(),
    }
}

/// The canonical rendering of a task record: `x ` and the finish date if
/// finished, the priority marker if one is set, the creation date, the
/// subject verbatim, then the reserved `due:`, `t:` and `rec:` tags and the
/// generic tags, each preceded by one space.
pub open spec fn render_chars(t: TaskView) -> Seq<char> {
    (if t.finished {
        seq!['x', ' '] + opt_date_head_chars(t.finish_date)
    } else {
        Seq::<char>::empty()
    }) + (if t.priority < 26 {
        seq!['(', prio_char(t.priority), ')', ' ']
    } else {
        Seq::<char>::empty()
    }) + opt_date_head_chars(t.create_date) + t.subject + due_chunk(t.due_date)
        + threshold_chunk(t.threshold_date) + rec_chunk(t.recurrence) + tags_chars(t.tags)
}

/// The exec counterpart of [`is_lower`].
fn is_lower_exec(c: char) -> (r: bool)
    ensures
        r == is_lower(c),
{
    match c {
        'a' | 'b' | 'c' | 'd' | 'e' | 'f' | 'g' | 'h' | 'i' | 'j' | 'k' | 'l' | 'm' | 'n'
            | 'o' | 'p' | 'q' | 'r' | 's' | 't' | 'u' | 'v' | 'w' | 'x' | 'y' | 'z' => true,
        _ => false,
    }
}

/// The position of `c` in the uppercase alphabet, if it is an ASCII capital.
fn upper_index(c: char) -> (r: Option<u8>)
    ensures
        match r {
            Some(p) => 65 <= c as int <= 90 && p as int == c as int - 65,
            None => !(65 <= c as int <= 90),
        },
{
    match c {
        'A' => Some(0),
        'B' => Some(1),
        'C' => Some(2),
        'D' => Some(3),
        'E' => Some(4),
        'F' => Some(5),
        'G' => Some(6),
        'H' => Some(7),
        'I' => Some(8),
        'J' => Some(9),
        'K' => Some(10),
        'L' => Some(11),
        'M' => Some(12),
        'N' => Some(13),
        'O' => Some(14),
        'P' => Some(15),
        'Q' => Some(16),
        'R' => Some(17),
        'S' => Some(18),
        'T' => Some(19),
        'U' => Some(20),
        'V' => Some(21),
        'W' => Some(22),
        'X' => Some(23),
        'Y' => Some(24),
        'Z' => Some(25),
        _ => None,
    }
}

/// True when `k` holds exactly the three given characters.
fn key_eq3(k: &Vec<char>, c0: char, c1: char, c2: char) -> (r: bool)
    ensures
        r == (k@ == seq![c0, c1, c2]),
{
    let r = k.len() == 3 && char_is(k, 0, c0) && char_is(k, 1, c1) && char_is(k, 2, c2);
    proof {
        if r {
            assert(k@ =~= seq![c0, c1, c2]);
        } else if k@ == seq![c0, c1, c2] {
            assert(k@.len() == 3);
            assert(false);
        }
    }
    r
}

/// True when `k` holds exactly the one given character.
fn key_eq1(k: &Vec<char>, c0: char) -> (r: bool)
    ensures
        r == (k@ == seq![c0]),
{
    let r = k.len() == 1 && char_is(k, 0, c0);
    proof {
        if r {
            assert(k@ =~= seq![c0]);
        } else if k@ == seq![c0] {
            assert(k@.len() == 1);
            assert(false);
        }
    }
    r
}

/// Splitting [`tags_insert`] at a prefix that does not hold the key.
proof fn lemma_tags_insert_mid(
    s: Seq<(Seq<char>, Seq<char>)>,
    i: int,
    k: Seq<char>,
    v: Seq<char>,
)
    requires
        0 <= i <= s.len(),
        forall|j: int| 0 <= j < i ==> s[j].0 != k,
    ensures
        tags_insert(s, k, v) == s.take(i) + tags_insert(s.skip(i), k, v),
    decreases i,
{
    if i == 0 {
        assert(s.skip(0) =~= s);
        assert(s.take(0) + tags_insert(s, k, v) =~= tags_insert(s, k, v));
    } else {
        assert(s[0].0 != k);
        lemma_tags_insert_mid(s.drop_first(), i - 1, k, v);
        assert(s.drop_first().take(i - 1) =~= s.take(i).drop_first());
        assert(s.drop_first().skip(i - 1) =~= s.skip(i));
        assert(seq![s[0]] + (s.take(i).drop_first() + tags_insert(s.skip(i), k, v)) =~= s.take(
            i,
        ) + tags_insert(s.skip(i), k, v));
    }
}

/// Stores `k -> v` in the tag listing, overwriting the value of an existing
/// key in place and appending a new key at the end.
fn tags_put(tags: &mut Vec<(String, String)>, k: String, v: String)
    ensures
        final(tags).deep_view() == tags_insert(old(tags).deep_view(), k@, v@),
{
    let ghost s = old(tags).deep_view();
    let n = tags.len();
    let mut i: usize = 0;
    while i < n
        invariant
            i <= n,
            n == tags.len(),
            *tags == *old(tags),
            s == old(tags).deep_view(),
            forall|j: int| 0 <= j < i ==> s[j].0 != k@,
        decreases n - i,
    {
        if tags[i].0 == k {
            proof {
                assert(s[i as int].0 == k@);
                lemma_tags_insert_mid(s, i as int, k@, v@);
                assert(s.skip(i as int)[0] == s[i as int]);
                assert(s.skip(i as int).drop_first() =~= s.skip(i + 1));
            }
            tags.set(i, (k, v));
            proof {
                assert(tags.deep_view() =~= s.update(i as int, (k@, v@)));
                assert(s.take(i as int) + (seq![(k@, v@)] + s.skip(i + 1)) =~= s.update(
                    i as int,
                    (k@, v@),
                ));
            }
            return;
        }
        proof {
            assert(s[i as int].0 == tags[i as int].0.deep_view());
        }
        i += 1;
    }
    tags.push((k, v));
    proof {
        lemma_tags_insert_mid(s, s.len() as int, k@, v@);
        assert(s.skip(s.len() as int) =~= Seq::<(Seq<char>, Seq<char>)>::empty());
        assert(s.take(s.len() as int) =~= s);
        assert(tags.deep_view() =~= s + seq![(k@, v@)]);
        assert(s + tags_insert(Seq::<(Seq<char>, Seq<char>)>::empty(), k@, v@) =~= s + seq![
            (k@, v@),
        ]);
    }
}

/// Applies one closed `key:value` tag to the record fields, as
/// [`apply_tag`] does to the accumulator.
fn apply_tag_exec(
    k: &Vec<char>,
    v: &Vec<char>,
    tags: &mut Vec<(String, String)>,
    threshold_date: &mut Option<Date>,
    due_date: &mut Option<Date>,
    recurrence: &mut Option<Recurrence>,
)
    ensures
        final(tags).deep_view() == (if k@ == seq!['r', 'e', 'c'] || k@ == seq!['d', 'u', 'e']
            || k@ == seq!['t'] {
            old(tags).deep_view()
        } else {
            tags_insert(old(tags).deep_view(), k@, v@)
        }),
        *final(recurrence) == (if k@ == seq!['r', 'e', 'c'] {
            spec_parse_rec(v@)
        } else {
            *old(recurrence)
        }),
        *final(due_date) == (if k@ != seq!['r', 'e', 'c'] && k@ == seq!['d', 'u', 'e'] {
            spec_parse_date(v@)
        } else {
            *old(due_date)
        }),
        *final(threshold_date) == (if k@ != seq!['r', 'e', 'c'] && k@ != seq!['d', 'u', 'e']
            && k@ == seq!['t'] {
            spec_parse_date(v@)
        } else {
            *old(threshold_date)
        }),
{
    let n = v.len();
    proof {
        assert(v@.subrange(0, n as int) =~= v@);
    }
    if key_eq3(k, 'r', 'e', 'c') {
        *recurrence = parse_rec_range(v, 0, n);
    } else if key_eq3(k, 'd', 'u', 'e') {
        *due_date = parse_date_range(v, 0, n);
    } else if key_eq1(k, 't') {
        *threshold_date = parse_date_range(v, 0, n);
    } else {
        tags_put(tags, string_of(k), string_of(v));
    }
}

/// Reads a `YYYY-MM-DD ` head standing at position `pos`.
fn date_head_exec(v: &Vec<char>, pos: usize) -> (r: Option<Date>)
    requires
        pos <= v.len(),
    ensures
        r == date_head(v@.skip(pos as int)),
{
    if v.len() - pos >= 11 && char_is(v, pos + 10, ' ') {
        let r = parse_date_range(v, pos, pos + 10);
        proof {
            assert(v@.skip(pos as int).take(10) =~= v@.subrange(pos as int, pos + 10));
        }
        r
    } else {
        None
    }
}

/// Reads the line's header off the front of `buf`: the completion flag,
/// the finish date, the priority, the creation date, and the position
/// where the token scan starts.
fn parse_header(buf: &Vec<char>) -> (r: (bool, Option<Date>, u8, Option<Date>, usize))
    ensures
        ({
            let h = spec_header(buf@);
            &&& r.0 == h.finished
            &&& r.1 == h.finish_date
            &&& r.2 == h.priority
            &&& r.3 == h.create_date
            &&& r.4 <= buf@.len()
            &&& h.rest == buf@.skip(r.4 as int)
        }),
{
    let n = buf.len();
    let ghost h = spec_header(buf@);
    // completion marker and tentative finish date
    let mut pos: usize = 0;
    let finished = n >= 2 && char_is(buf, 0, 'x') && char_is(buf, 1, ' ');
    if finished {
        pos = 2;
    }
    let ghost s1 = buf@.skip(pos as int);
    let mut finish_date: Option<Date> = if finished {
        date_head_exec(buf, pos)
    } else {
        None
    };
    if finish_date.is_some() {
        proof {
            assert(s1.len() >= 11);
        }
        pos = pos + 11;
        proof {
            assert(s1.skip(11) =~= buf@.skip(pos as int));
        }
    }
    // priority marker
    let ghost s2 = buf@.skip(pos as int);
    let ghost pos2 = pos as int;
    let mut priority: u8 = 26;
    if n - pos >= 4 && char_is(buf, pos, '(') && char_is(buf, pos + 2, ')') && char_is(
        buf,
        pos + 3,
        ' ',
    ) {
        proof {
            assert(s2[0] == buf@[pos2]);
            assert(s2[1] == buf@[pos2 + 1]);
            assert(s2[2] == buf@[pos2 + 2]);
            assert(s2[3] == buf@[pos2 + 3]);
        }
        match upper_index(buf[pos + 1]) {
            Some(p) => {
                priority = p;
                pos = pos + 4;
                proof {
                    assert(s2.skip(4) =~= buf@.skip(pos as int));
                }
            },
            None => {},
        }
    }
    // creation date and the date disambiguation rule
    let ghost s3 = buf@.skip(pos as int);
    let mut create_date = date_head_exec(buf, pos);
    if create_date.is_some() {
        proof {
            assert(s3.len() >= 11);
        }
        pos = pos + 11;
        proof {
            assert(s3.skip(11) =~= buf@.skip(pos as int));
        }
    }
    if priority == 26 && finish_date.is_some() && create_date.is_none() {
        create_date = finish_date;
        finish_date = None;
    }
    proof {
        assert(h.finished == finished);
        assert(h.priority == priority);
        assert(h.finish_date == finish_date);
        assert(h.create_date == create_date);
        assert(h.rest == buf@.skip(pos as int));
    }
    (finished, finish_date, priority, create_date, pos)
}

/// The scanner's state with its pending text, the exec counterpart of
/// [`ScanState`].
enum St {
    Init,
    Ctx(Vec<char>),
    Prj(Vec<char>),
    Hash(Vec<char>),
    Key(Vec<char>),
    KeyVal(Vec<char>, Vec<char>),
}

/// The model of an exec scanner state.
spec fn st_view(st: &St) -> ScanState {
    match st {
        St::Init => ScanState::Init,
        St::Ctx(p) => ScanState::Ctx(p@),
        St::Prj(p) => ScanState::Prj(p@),
        St::Hash(p) => ScanState::Hash(p@),
        St::Key(p) => ScanState::Key(p@),
        St::KeyVal(k, v) => ScanState::KeyVal(k@, v@),
    }
}

impl Task {
    /// Parses one line into a task record.  Parsing a whole record never
    /// fails: a malformed sub-field is simply absent from the result.
    #[verifier::rlimit(100)]
    pub fn from_str(s: &str) -> (r: Result<Task, ()>)
        ensures
            r matches Ok(t) && t@ == spec_parse_task(s@),
    {
        let buf = chars_of(s);
        let n = buf.len();
        let ghost h = spec_header(buf@);
        let (finished, finish_date, priority, create_date, pos) = parse_header(&buf);
        // token scan over the rest of the line
        let start = pos;
        let mut st = St::Init;
        let mut subject: Vec<char> = Vec::new();
        let mut contexts: Vec<String> = Vec::new();
        let mut projects: Vec<String> = Vec::new();
        let mut hashtags: Vec<String> = Vec::new();
        let mut tags: Vec<(String, String)> = Vec::new();
        let mut threshold_date: Option<Date> = None;
        let mut due_date: Option<Date> = None;
        let mut recurrence: Option<Recurrence> = None;
        let mut i = pos;
        while i < n
            invariant
                start <= i <= n,
                n == buf.len(),
                ({
                    let run = scan_run(
                        buf@.subrange(start as int, i as int),
                        ScanState::Init,
                        empty_acc(),
                    );
                    st_view(&st) == run.0 && subject@ == run.1.subject
                        && contexts.deep_view() == run.1.contexts
                        && projects.deep_view() == run.1.projects
                        && hashtags.deep_view() == run.1.hashtags
                        && tags.deep_view() == run.1.tags
                        && threshold_date == run.1.threshold_date
                        && due_date == run.1.due_date
                        && recurrence == run.1.recurrence
                }),
            decreases n - i,
        {
            let ghost st_g = st_view(&st);
            let ghost acc_g = ScanAcc {
                subject: subject@,
                contexts: contexts.deep_view(),
                projects: projects.deep_view(),
                hashtags: hashtags.deep_view(),
                tags: tags.deep_view(),
                threshold_date,
                due_date,
                recurrence,
            };
            let c = buf[i];
            let ghost step = scan_step(st_g, acc_g, c);
            st = match st {
                St::Init => {
                    if c == '@' {
                        St::Ctx(Vec::new())
                    } else if c == '+' {
                        St::Prj(Vec::new())
                    } else if c == '#' {
                        St::Hash(Vec::new())
                    } else if is_lower_exec(c) {
                        let mut p: Vec<char> = Vec::new();
                        p.push(c);
                        proof {
                            assert(p@ =~= seq![c]);
                        }
                        St::Key(p)
                    } else {
                        subject.push(c);
                        St::Init
                    }
                },
                St::Ctx(mut p) => {
                    if c == ' ' {
                        subject.push('@');
                        append_chars(&mut subject, &p);
                        subject.push(' ');
                        proof {
                            assert(subject@ =~= acc_g.subject + seq!['@'] + p@ + seq![' ']);
                        }
                        if p.len() > 0 {
                            contexts.push(string_of(&p));
                            proof {
                                assert(contexts.deep_view() =~= acc_g.contexts.push(p@));
                            }
                        }
                        St::Init
                    } else {
                        p.push(c);
                        St::Ctx(p)
                    }
                },
                St::Prj(mut p) => {
                    if c == ' ' {
                        subject.push('+');
                        append_chars(&mut subject, &p);
                        subject.push(' ');
                        proof {
                            assert(subject@ =~= acc_g.subject + seq!['+'] + p@ + seq![' ']);
                        }
                        if p.len() > 0 {
                            projects.push(string_of(&p));
                            proof {
                                assert(projects.deep_view() =~= acc_g.projects.push(p@));
                            }
                        }
                        St::Init
                    } else {
                        p.push(c);
                        St::Prj(p)
                    }
                },
                St::Hash(mut p) => {
                    if c == ' ' {
                        subject.push('#');
                        append_chars(&mut subject, &p);
                        subject.push(' ');
                        proof {
                            assert(subject@ =~= acc_g.subject + seq!['#'] + p@ + seq![' ']);
                        }
                        if p.len() > 0 {
                            hashtags.push(string_of(&p));
                            proof {
                                assert(hashtags.deep_view() =~= acc_g.hashtags.push(p@));
                            }
                        }
                        St::Init
                    } else {
                        p.push(c);
                        St::Hash(p)
                    }
                },
                St::Key(mut p) => {
                    if c == ':' {
                        St::KeyVal(p, Vec::new())
                    } else if c == ' ' {
                        append_chars(&mut subject, &p);
                        subject.push(' ');
                        proof {
                            assert(subject@ =~= acc_g.subject + p@ + seq![' ']);
                        }
                        St::Init
                    } else {
                        p.push(c);
                        St::Key(p)
                    }
                },
                St::KeyVal(k, mut v) => {
                    if c == ' ' {
                        if v.len() > 0 {
                            apply_tag_exec(
                                &k,
                                &v,
                                &mut tags,
                                &mut threshold_date,
                                &mut due_date,
                                &mut recurrence,
                            );
                        }
                        St::Init
                    } else {
                        v.push(c);
                        St::KeyVal(k, v)
                    }
                },
            };
            proof {
                assert(buf@.subrange(start as int, i + 1).drop_last() =~= buf@.subrange(
                    start as int,
                    i as int,
                ));
                assert(buf@.subrange(start as int, i + 1).last() == c);
                let run2 = scan_run(
                    buf@.subrange(start as int, i + 1),
                    ScanState::Init,
                    empty_acc(),
                );
                assert(run2 == step);
                assert(st_view(&st) == step.0);
                assert(subject@ == step.1.subject);
                assert(contexts.deep_view() == step.1.contexts);
                assert(projects.deep_view() == step.1.projects);
                assert(hashtags.deep_view() == step.1.hashtags);
                assert(tags.deep_view() == step.1.tags);
                assert(threshold_date == step.1.threshold_date);
                assert(due_date == step.1.due_date);
                assert(recurrence == step.1.recurrence);
            }
            i += 1;
        }
        proof {
            assert(buf@.subrange(start as int, n as int) =~= buf@.skip(start as int));
        }
        // close whatever token is pending at the end of the line
        let ghost st_g = st_view(&st);
        let ghost acc_g = ScanAcc {
            subject: subject@,
            contexts: contexts.deep_view(),
            projects: projects.deep_view(),
            hashtags: hashtags.deep_view(),
            tags: tags.deep_view(),
            threshold_date,
            due_date,
            recurrence,
        };
        let ghost fin = scan_finish(st_g, acc_g);
        match st {
            St::Init => {},
            St::Ctx(p) => {
                subject.push('@');
                append_chars(&mut subject, &p);
                proof {
                    assert(subject@ =~= acc_g.subject + seq!['@'] + p@);
                }
                if p.len() > 0 {
                    contexts.push(string_of(&p));
                    proof {
                        assert(contexts.deep_view() =~= acc_g.contexts.push(p@));
                    }
                }
            },
            St::Prj(p) => {
                subject.push('+');
                append_chars(&mut subject, &p);
                proof {
                    assert(subject@ =~= acc_g.subject + seq!['+'] + p@);
                }
                if p.len() > 0 {
                    projects.push(string_of(&p));
                    proof {
                        assert(projects.deep_view() =~= acc_g.projects.push(p@));
                    }
                }
            },
            St::Hash(p) => {
                subject.push('#');
                append_chars(&mut subject, &p);
                proof {
                    assert(subject@ =~= acc_g.subject + seq!['#'] + p@);
                }
                if p.len() > 0 {
                    hashtags.push(string_of(&p));
                    proof {
                        assert(hashtags.deep_view() =~= acc_g.hashtags.push(p@));
                    }
                }
            },
            St::Key(p) => {
                append_chars(&mut subject, &p);
                proof {
                    assert(subject@ =~= acc_g.subject + p@);
                }
            },
            St::KeyVal(k, v) => {
                if v.len() > 0 {
                    apply_tag_exec(
                        &k,
                        &v,
                        &mut tags,
                        &mut threshold_date,
                        &mut due_date,
                        &mut recurrence,
                    );
                }
                if subject.len() > 0 && char_is(&subject, subject.len() - 1, ' ') {
                    subject.pop();
                }
            },
        }
        proof {
            assert(subject@ == fin.subject);
            assert(contexts.deep_view() == fin.contexts);
            assert(projects.deep_view() == fin.projects);
            assert(hashtags.deep_view() == fin.hashtags);
            assert(tags.deep_view() == fin.tags);
            assert(threshold_date == fin.threshold_date);
            assert(due_date == fin.due_date);
            assert(recurrence == fin.recurrence);
        }
        let t = Task {
            subject: string_of(&subject),
            priority,
            create_date,
            finish_date,
            finished,
            threshold_date,
            due_date,
            recurrence,
            contexts,
            projects,
            hashtags,
            tags,
        };
        proof {
            assert(buf@ == s@);
            assert(t@ == spec_parse_task(s@));
        }
        Ok(t)
    }

    /// The plain form of a line's subject: everything after the header
    /// (completion marker, dates and priority), with tags and tokens kept
    /// in place exactly as they stand on the line.  [`Task::from_str`]
    /// stores the stripped form instead, with the `key:value` tags removed.
    pub fn raw_subject(s: &str) -> (r: String)
        ensures
            r@ == spec_header(s@).rest,
    {
        let buf = chars_of(s);
        let header = parse_header(&buf);
        let n = buf.len();
        let tail = crate::text::sub_chars(&buf, header.4, n);
        proof {
            assert(buf@.subrange(header.4 as int, n as int) =~= buf@.skip(header.4 as int));
        }
        string_of(&tail)
    }

    /// Renders the record back into its canonical one-line form.
    pub fn render(&self) -> (out: String)
        ensures
            out@ == render_chars(self@),
    {
        let ghost t = self@;
        let mut out: Vec<char> = Vec::new();
        if self.finished {
            out.push('x');
            out.push(' ');
            append_opt_date_head(&mut out, &self.finish_date);
            proof {
                assert(out@ =~= seq!['x', ' '] + opt_date_head_chars(t.finish_date));
            }
        }
        if self.priority < 26 {
            out.push('(');
            out.push(prio_char_exec(self.priority));
            out.push(')');
            out.push(' ');
        }
        let ghost p2 = (if t.finished {
            seq!['x', ' '] + opt_date_head_chars(t.finish_date)
        } else {
            Seq::<char>::empty()
        }) + (if t.priority < 26 {
            seq!['(', prio_char(t.priority), ')', ' ']
        } else {
            Seq::<char>::empty()
        });
        proof {
            assert(out@ =~= p2);
        }
        append_opt_date_head(&mut out, &self.create_date);
        let subj = chars_of(self.subject.as_str());
        append_chars(&mut out, &subj);
        let ghost p4 = p2 + opt_date_head_chars(t.create_date) + t.subject;
        proof {
            assert(out@ =~= p4);
        }
        append_reserved_tags(&mut out, &self.due_date, &self.threshold_date, &self.recurrence);
        append_tags(&mut out, &self.tags);
        proof {
            assert(out@ =~= render_chars(t));
        }
        string_of(&out)
    }
}

/// Appends a date and a trailing space when the date is present.
fn append_opt_date_head(out: &mut Vec<char>, d: &Option<Date>)
    ensures
        final(out)@ == old(out)@ + opt_date_head_chars(*d),
{
    match d {
        Some(d) => {
            append_date(out, d);
            out.push(' ');
            proof {
                assert(out@ =~= old(out)@ + opt_date_head_chars(Some(*d)));
            }
        },
        None => {
            proof {
                assert(out@ =~= old(out)@ + opt_date_head_chars(None::<Date>));
            }
        },
    }
}

/// Appends the reserved `due:`, `t:` and `rec:` tags of the record, each
/// one space-separated, for whichever of the three fields are present.
fn append_reserved_tags(
    out: &mut Vec<char>,
    due_date: &Option<Date>,
    threshold_date: &Option<Date>,
    recurrence: &Option<Recurrence>,
)
    ensures
        final(out)@ == old(out)@ + (match *due_date {
            Some(d) => seq![' ', 'd', 'u', 'e', ':'] + date_chars(d),
            None => Seq::<char>::empty(),
        }) + (match *threshold_date {
            Some(d) => seq![' ', 't', ':'] + date_chars(d),
            None => Seq::<char>::empty(),
        }) + (match *recurrence {
            Some(r) => seq![' '] + rec_chars(r),
            None => Seq::<char>::empty(),
        }),
{
    let ghost base = out@;
    match due_date {
        Some(d) => {
            out.push(' ');
            out.push('d');
            out.push('u');
            out.push('e');
            out.push(':');
            append_date(out, d);
        },
        None => {},
    }
    let ghost p1 = base + (match *due_date {
        Some(d) => seq![' ', 'd', 'u', 'e', ':'] + date_chars(d),
        None => Seq::<char>::empty(),
    });
    proof {
        assert(out@ =~= p1);
    }
    match threshold_date {
        Some(d) => {
            out.push(' ');
            out.push('t');
            out.push(':');
            append_date(out, d);
        },
        None => {},
    }
    let ghost p2 = p1 + (match *threshold_date {
        Some(d) => seq![' ', 't', ':'] + date_chars(d),
        None => Seq::<char>::empty(),
    });
    proof {
        assert(out@ =~= p2);
    }
    match recurrence {
        Some(r) => {
            out.push(' ');
            append_rec(out, r);
        },
        None => {},
    }
    proof {
        assert(out@ =~= p2 + (match *recurrence {
            Some(r) => seq![' '] + rec_chars(r),
            None => Seq::<char>::empty(),
        }));
    }
}

/// Appends the generic tag listing, one ` key:value` chunk per entry, in
/// stored order.
fn append_tags(out: &mut Vec<char>, tags: &Vec<(String, String)>)
    ensures
        final(out)@ == old(out)@ + tags_chars(tags.deep_view()),
{
    let ghost ts = tags.deep_view();
    let m = tags.len();
    let mut j: usize = 0;
    while j < m
        invariant
            j <= m,
            m == tags.len(),
            ts == tags.deep_view(),
            out@ == old(out)@ + tags_chars(ts.take(j as int)),
        decreases m - j,
    {
        let pair = &tags[j];
        out.push(' ');
        let kchars = chars_of(pair.0.as_str());
        append_chars(out, &kchars);
        out.push(':');
        let vchars = chars_of(pair.1.as_str());
        append_chars(out, &vchars);
        proof {
            assert(ts[j as int] == (pair.0@, pair.1@));
            assert(ts.take(j + 1).drop_last() =~= ts.take(j as int));
            assert(ts.take(j + 1).last() == ts[j as int]);
            assert(out@ =~= old(out)@ + tags_chars(ts.take(j + 1)));
        }
        j += 1;
    }
    proof {
        assert(ts.take(m as int) =~= ts);
    }
}

/// The exec counterpart of [`prio_char`].
fn prio_char_exec(p: u8) -> (c: char)
    requires
        p < 26,
    ensures
        c == prio_char(p),
{
    (65 + p) as char
}

} // verus!
