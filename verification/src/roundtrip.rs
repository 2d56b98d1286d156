//! The round-trip law: a record rendered by the formatter and parsed back
//! yields the same record, for every record whose fields survive the line
//! grammar (see [`round_trippable`]).

use vstd::prelude::*;

use crate::date::Date;
use crate::date::date_chars;
use crate::date::lemma_date_round_trip;
use crate::recurrence::Recurrence;
use crate::recurrence::lemma_recurrence_round_trip;
use crate::recurrence::rec_chars;
use crate::recurrence::spec_parse_rec;
use crate::task::ScanAcc;
use crate::task::ScanState;
use crate::task::TaskView;
use crate::task::apply_tag;
use crate::task::date_head;
use crate::task::due_chunk;
use crate::task::empty_acc;
use crate::task::is_lower;
use crate::task::opt_date_head_chars;
use crate::task::prio_char;
use crate::task::rec_chunk;
use crate::task::render_chars;
use crate::task::scan_finish;
use crate::task::scan_run;
use crate::task::scan_step;
use crate::task::spec_header;
use crate::task::spec_parse_task;
use crate::task::strip_trailing_space;
use crate::task::tag_chunk;
use crate::task::tags_chars;
use crate::task::tags_insert;
use crate::task::threshold_chunk;
use crate::text::is_digit;

verus! {

/// A character that the token scanner never treats as a token marker.
pub open spec fn plain_char(c: char) -> bool {
    c != '@' && c != '+' && c != '#' && c != ':'
}

/// Text made only of characters the scanner treats as free text: it may
/// hold lowercase words (they revert to free text at the next space), but
/// no token markers and no colon.
pub open spec fn plain_text(s: Seq<char>) -> bool {
    forall|i: int| 0 <= i < s.len() ==> plain_char(#[trigger] s[i])
}

/// The accumulator with more text appended to the subject.
pub open spec fn plus_subject(acc: ScanAcc, s: Seq<char>) -> ScanAcc {
    ScanAcc { subject: acc.subject + s, ..acc }
}

/// The pending text of a scanner state in the middle of plain text.
pub open spec fn scan_pending(st: ScanState) -> Seq<char> {
    match st {
        ScanState::Key(p) => p,
        _ => Seq::<char>::empty(),
    }
}

/// The state the scanner reaches after plain text: `Init`, or `Key` holding
/// the trailing run that a lowercase letter started.
pub open spec fn scan_plain_state(s: Seq<char>) -> ScanState
    decreases s.len(),
{
    if s.len() == 0 {
        ScanState::Init
    } else {
        let prev = scan_plain_state(s.drop_last());
        let c = s.last();
        match prev {
            ScanState::Key(p) => if c == ' ' {
                ScanState::Init
            } else {
                ScanState::Key(p.push(c))
            },
            _ => if is_lower(c) {
                ScanState::Key(seq![c])
            } else {
                ScanState::Init
            },
        }
    }
}

/// Scanning a concatenation is scanning the first part, then the second.
pub proof fn lemma_scan_append(a: Seq<char>, b: Seq<char>, st: ScanState, acc: ScanAcc)
    ensures
        scan_run(a + b, st, acc) == scan_run(b, scan_run(a, st, acc).0, scan_run(a, st, acc).1),
    decreases b.len(),
{
    if b.len() == 0 {
        assert(a + b =~= a);
    } else {
        lemma_scan_append(a, b.drop_last(), st, acc);
        assert((a + b).drop_last() =~= a + b.drop_last());
        assert((a + b).last() == b.last());
    }
}

/// Scanning plain text from `Init` only grows the subject: the state stays
/// `Init` or holds a trailing pending word, and no token is registered.
pub proof fn lemma_scan_plain(s: Seq<char>, acc: ScanAcc)
    requires
        plain_text(s),
    ensures
        ({
            let st = scan_plain_state(s);
            let p = scan_pending(st);
            &&& p.len() <= s.len()
            &&& p == s.skip(s.len() - p.len())
            &&& scan_run(s, ScanState::Init, acc) == (
                st,
                plus_subject(acc, s.take(s.len() - p.len())),
            )
            &&& (st is Init || st is Key)
        }),
    decreases s.len(),
{
    if s.len() == 0 {
        assert(s.take(0) =~= Seq::<char>::empty());
        assert(acc.subject + Seq::<char>::empty() =~= acc.subject);
    } else {
        let s0 = s.drop_last();
        let c = s.last();
        assert(forall|i: int| 0 <= i < s0.len() ==> plain_char(#[trigger] s0[i])) by {
            assert(forall|i: int| 0 <= i < s0.len() ==> s0[i] == #[trigger] s[i]);
        }
        assert(plain_char(c));
        lemma_scan_plain(s0, acc);
        let st0 = scan_plain_state(s0);
        let p0 = scan_pending(st0);
        let j0 = s0.len() - p0.len();
        let st = scan_plain_state(s);
        let p = scan_pending(st);
        match st0 {
            ScanState::Key(q0) => {
                if c == ' ' {
                    assert(s0.take(j0) + q0 + seq![' '] =~= s) by {
                        assert(s0.take(j0) + q0 =~= s0);
                    }
                    assert(s.take(s.len() as int) =~= s);
                    assert(acc.subject + s0.take(j0) + q0 + seq![' '] =~= acc.subject + s);
                } else {
                    assert(st == ScanState::Key(q0.push(c)));
                    assert(p == q0.push(c));
                    assert(s.skip(j0) =~= s0.skip(j0).push(c));
                    assert(s.take(j0) =~= s0.take(j0));
                }
            },
            _ => {
                assert(s0.take(s0.len() as int) =~= s0);
                if is_lower(c) {
                    assert(st == ScanState::Key(seq![c]));
                    assert(s.skip(s.len() - 1) =~= seq![c]);
                    assert(s.take(s.len() - 1) =~= s0);
                } else {
                    assert((acc.subject + s0).push(c) =~= acc.subject + s);
                    assert(s.take(s.len() as int) =~= s);
                }
            },
        }
    }
}

/// Scanning a tag key from `Init` pends the whole key.
pub proof fn lemma_scan_key(k: Seq<char>, acc: ScanAcc)
    requires
        k.len() > 0,
        is_lower(k[0]),
        forall|i: int| 0 <= i < k.len() ==> #[trigger] k[i] != ' ' && k[i] != ':',
    ensures
        scan_run(k, ScanState::Init, acc) == (ScanState::Key(k), acc),
    decreases k.len(),
{
    if k.len() == 1 {
        assert(scan_run(Seq::<char>::empty(), ScanState::Init, acc) == (ScanState::Init, acc));
        assert(k.drop_last() =~= Seq::<char>::empty());
        assert(k.last() == k[0]);
        assert(k[0] != '@' && k[0] != '+' && k[0] != '#') by {
            assert('@' as int == 64 && '+' as int == 43 && '#' as int == 35);
        }
        assert(seq![k[0]] =~= k);
    } else {
        let k0 = k.drop_last();
        assert(forall|i: int| 0 <= i < k0.len() ==> #[trigger] k0[i] != ' ' && k0[i] != ':')
            by {
            assert(forall|i: int| 0 <= i < k0.len() ==> k0[i] == #[trigger] k[i]);
        }
        lemma_scan_key(k0, acc);
        assert(k.last() != ' ' && k.last() != ':');
        assert(k0.push(k.last()) =~= k);
    }
}

/// Scanning a tag value from `KeyVal` appends it all to the pending value.
pub proof fn lemma_scan_val(v: Seq<char>, k: Seq<char>, w: Seq<char>, acc: ScanAcc)
    requires
        forall|i: int| 0 <= i < v.len() ==> #[trigger] v[i] != ' ',
    ensures
        scan_run(v, ScanState::KeyVal(k, w), acc) == (ScanState::KeyVal(k, w + v), acc),
    decreases v.len(),
{
    if v.len() == 0 {
        assert(w + v =~= w);
    } else {
        let v0 = v.drop_last();
        assert(forall|i: int| 0 <= i < v0.len() ==> #[trigger] v0[i] != ' ') by {
            assert(forall|i: int| 0 <= i < v0.len() ==> v0[i] == #[trigger] v[i]);
        }
        lemma_scan_val(v0, k, w, acc);
        assert(v.last() != ' ');
        assert((w + v0).push(v.last()) =~= w + v);
    }
}

/// The shape of a tag key that survives rendering and reparsing: it starts
/// with a lowercase letter and holds no space and no colon.
pub open spec fn key_shape(k: Seq<char>) -> bool {
    k.len() > 0 && is_lower(k[0]) && forall|i: int|
        0 <= i < k.len() ==> #[trigger] k[i] != ' ' && k[i] != ':'
}

/// The shape of a tag value that survives rendering and reparsing: it is
/// non-empty and holds no space.
pub open spec fn value_shape(v: Seq<char>) -> bool {
    v.len() > 0 && forall|i: int| 0 <= i < v.len() ==> #[trigger] v[i] != ' '
}

/// Scanning one rendered tag chunk ` key:value` from any state that a
/// space closes into `Init` pends the whole tag.
pub proof fn lemma_scan_chunk(k: Seq<char>, v: Seq<char>, st: ScanState, acc: ScanAcc)
    requires
        key_shape(k),
        value_shape(v),
        scan_step(st, acc, ' ').0 == ScanState::Init,
    ensures
        scan_run(tag_chunk((k, v)), st, acc) == (
            ScanState::KeyVal(k, v),
            scan_step(st, acc, ' ').1,
        ),
{
    let acc1 = scan_step(st, acc, ' ').1;
    let body = k + (seq![':'] + v);
    assert(tag_chunk((k, v)) =~= seq![' '] + body);
    lemma_scan_append(seq![' '], body, st, acc);
    assert(scan_run(seq![' '], st, acc) == scan_step(st, acc, ' ')) by {
        assert(scan_run(Seq::<char>::empty(), st, acc) == (st, acc));
        assert(seq![' '].drop_last() =~= Seq::<char>::empty());
        assert(seq![' '].last() == ' ');
    }
    lemma_scan_append(k, seq![':'] + v, ScanState::Init, acc1);
    lemma_scan_key(k, acc1);
    assert(scan_run(seq![':'] + v, ScanState::Key(k), acc1) == (
        ScanState::KeyVal(k, v),
        acc1,
    )) by {
        lemma_scan_append(seq![':'], v, ScanState::Key(k), acc1);
        assert(scan_run(seq![':'], ScanState::Key(k), acc1) == (
            ScanState::KeyVal(k, Seq::<char>::empty()),
            acc1,
        )) by {
            assert(scan_run(Seq::<char>::empty(), ScanState::Key(k), acc1) == (
                ScanState::Key(k),
                acc1,
            ));
            assert(seq![':'].drop_last() =~= Seq::<char>::empty());
            assert(seq![':'].last() == ':');
        }
        lemma_scan_val(v, k, Seq::<char>::empty(), acc1);
        assert(Seq::<char>::empty() + v =~= v);
    }
}

/// Applying a listing of closed tags to the accumulator, in order.
pub open spec fn apply_list(acc: ScanAcc, pairs: Seq<(Seq<char>, Seq<char>)>) -> ScanAcc
    decreases pairs.len(),
{
    if pairs.len() == 0 {
        acc
    } else {
        apply_tag(apply_list(acc, pairs.drop_last()), pairs.last().0, pairs.last().1)
    }
}

/// Scanning a non-empty run of rendered tag chunks closes and applies each
/// chunk but the last, which stays pending.
pub proof fn lemma_scan_pairs(pairs: Seq<(Seq<char>, Seq<char>)>, st: ScanState, acc: ScanAcc)
    requires
        pairs.len() > 0,
        forall|i: int|
            0 <= i < pairs.len() ==> key_shape(#[trigger] pairs[i].0) && value_shape(
                pairs[i].1,
            ),
        scan_step(st, acc, ' ').0 == ScanState::Init,
    ensures
        scan_run(tags_chars(pairs), st, acc) == (
            ScanState::KeyVal(pairs.last().0, pairs.last().1),
            apply_list(scan_step(st, acc, ' ').1, pairs.drop_last()),
        ),
    decreases pairs.len(),
{
    let acc1 = scan_step(st, acc, ' ').1;
    if pairs.len() == 1 {
        assert(tags_chars(pairs.drop_last()) =~= Seq::<char>::empty()) by {
            assert(pairs.drop_last().len() == 0);
        }
        assert(tags_chars(pairs) =~= tag_chunk(pairs[0]));
        lemma_scan_chunk(pairs[0].0, pairs[0].1, st, acc);
        assert(apply_list(acc1, pairs.drop_last()) == acc1);
    } else {
        let front = pairs.drop_last();
        let lastp = pairs.last();
        assert(forall|i: int|
            0 <= i < front.len() ==> key_shape(#[trigger] front[i].0) && value_shape(
                front[i].1,
            )) by {
            assert(forall|i: int| 0 <= i < front.len() ==> front[i] == #[trigger] pairs[i]);
        }
        lemma_scan_pairs(front, st, acc);
        lemma_scan_append(tags_chars(front), tag_chunk(lastp), st, acc);
        let mid = scan_run(tags_chars(front), st, acc);
        assert(mid.0 == ScanState::KeyVal(front.last().0, front.last().1));
        assert(value_shape(front.last().1)) by {
            assert(front.last() == pairs[pairs.len() - 2]);
        }
        assert(scan_step(mid.0, mid.1, ' ').0 == ScanState::Init);
        assert(scan_step(mid.0, mid.1, ' ').1 == apply_tag(mid.1, front.last().0, front.last().1));
        lemma_scan_chunk(lastp.0, lastp.1, mid.0, mid.1);
        assert(apply_tag(apply_list(acc1, front.drop_last()), front.last().0, front.last().1)
            == apply_list(acc1, front));
    }
}

/// Inserting a key that is not present appends the pair at the end.
pub proof fn lemma_tags_insert_fresh(
    tags: Seq<(Seq<char>, Seq<char>)>,
    k: Seq<char>,
    v: Seq<char>,
)
    requires
        forall|i: int| 0 <= i < tags.len() ==> (#[trigger] tags[i]).0 != k,
    ensures
        tags_insert(tags, k, v) == tags.push((k, v)),
    decreases tags.len(),
{
    if tags.len() == 0 {
        assert(tags_insert(tags, k, v) =~= tags.push((k, v)));
    } else {
        assert(tags[0].0 != k);
        lemma_tags_insert_fresh(tags.drop_first(), k, v);
        assert(seq![tags[0]] + tags.drop_first().push((k, v)) =~= tags.push((k, v)));
    }
}

/// Applying a listing of generic tags with fresh, pairwise distinct,
/// unreserved keys appends them to the stored tags in order and leaves the
/// reserved fields alone.
pub proof fn lemma_apply_generic(acc: ScanAcc, pairs: Seq<(Seq<char>, Seq<char>)>)
    requires
        forall|i: int, j: int|
            0 <= i < j < pairs.len() ==> (#[trigger] pairs[i]).0 != (#[trigger] pairs[j]).0,
        forall|i: int|
            0 <= i < pairs.len() ==> (#[trigger] pairs[i]).0 != seq!['r', 'e', 'c']
                && pairs[i].0 != seq!['d', 'u', 'e'] && pairs[i].0 != seq!['t'],
        forall|i: int, j: int|
            0 <= i < pairs.len() && 0 <= j < acc.tags.len() ==> (#[trigger] pairs[i]).0 != (
            #[trigger] acc.tags[j]).0,
    ensures
        apply_list(acc, pairs) == (ScanAcc { tags: acc.tags + pairs, ..acc }),
    decreases pairs.len(),
{
    if pairs.len() == 0 {
        assert(acc.tags + pairs =~= acc.tags);
    } else {
        let front = pairs.drop_last();
        let lastp = pairs.last();
        assert(forall|i: int, j: int|
            0 <= i < j < front.len() ==> (#[trigger] front[i]).0 != (#[trigger] front[j]).0)
            by {
            assert(forall|i: int| 0 <= i < front.len() ==> front[i] == #[trigger] pairs[i]);
        }
        assert(forall|i: int|
            0 <= i < front.len() ==> (#[trigger] front[i]).0 != seq!['r', 'e', 'c']
                && front[i].0 != seq!['d', 'u', 'e'] && front[i].0 != seq!['t']) by {
            assert(forall|i: int| 0 <= i < front.len() ==> front[i] == #[trigger] pairs[i]);
        }
        assert(forall|i: int, j: int|
            0 <= i < front.len() && 0 <= j < acc.tags.len() ==> (#[trigger] front[i]).0 != (
            #[trigger] acc.tags[j]).0) by {
            assert(forall|i: int| 0 <= i < front.len() ==> front[i] == #[trigger] pairs[i]);
        }
        lemma_apply_generic(acc, front);
        let accm = apply_list(acc, front);
        assert(accm.tags == acc.tags + front);
        assert(forall|j: int| 0 <= j < accm.tags.len() ==> (#[trigger] accm.tags[j]).0
            != lastp.0) by {
            assert(forall|j: int|
                0 <= j < acc.tags.len() ==> accm.tags[j] == #[trigger] acc.tags[j]);
            assert(forall|j: int|
                0 <= j < front.len() ==> accm.tags[acc.tags.len() + j] == #[trigger] front[j]);
            assert forall|j: int| 0 <= j < accm.tags.len() implies (#[trigger] accm.tags[j]).0
                != lastp.0 by {
                if j < acc.tags.len() {
                    assert(accm.tags[j] == acc.tags[j]);
                } else {
                    assert(accm.tags[j] == front[j - acc.tags.len()]);
                    assert(front[j - acc.tags.len()] == pairs[j - acc.tags.len()]);
                    assert(pairs[j - acc.tags.len()].0 != pairs[pairs.len() - 1].0);
                }
            }
        }
        lemma_tags_insert_fresh(accm.tags, lastp.0, lastp.1);
        assert((acc.tags + front).push(lastp) =~= acc.tags + pairs);
    }
}

/// The rendered ten date characters: exactly ten, no space among them, and
/// a digit in front.
pub proof fn lemma_date_chars_shape(d: Date)
    ensures
        date_chars(d).len() == 10,
        forall|i: int| 0 <= i < 10 ==> #[trigger] date_chars(d)[i] != ' ',
        is_digit(date_chars(d)[0]),
{
    let s = date_chars(d);
    crate::text::lemma_digit_char_val(d.year as int / 1000 % 10);
    crate::text::lemma_digit_char_val(d.year as int / 100 % 10);
    crate::text::lemma_digit_char_val(d.year as int / 10 % 10);
    crate::text::lemma_digit_char_val(d.year as int % 10);
    crate::text::lemma_digit_char_val(d.month as int / 10 % 10);
    crate::text::lemma_digit_char_val(d.month as int % 10);
    crate::text::lemma_digit_char_val(d.day as int / 10 % 10);
    crate::text::lemma_digit_char_val(d.day as int % 10);
    assert forall|i: int| 0 <= i < 10 implies #[trigger] s[i] != ' ' by {
        assert(' ' as int == 32);
        assert('-' as int == 45);
        if i == 4 || i == 7 {
            assert(s[i] == '-');
        } else {
            assert(is_digit(s[i]));
        }
    }
}

/// The tail of a rendered record: everything after the header, that is the
/// subject followed by the rendered reserved and generic tags.
pub open spec fn render_tail(t: TaskView) -> Seq<char> {
    t.subject + due_chunk(t.due_date) + threshold_chunk(t.threshold_date) + rec_chunk(
        t.recurrence,
    ) + tags_chars(t.tags)
}

/// True when the header reparse reads the tail itself at some header
/// position, so the tail must not look like a date or a priority marker.
pub open spec fn header_guard_needed(t: TaskView) -> bool {
    t.create_date is None || (t.finished && t.finish_date is None && t.priority == 26)
}

/// The shape the header parser reads as a priority marker.
pub open spec fn prio_marker_shape(s: Seq<char>) -> bool {
    s.len() >= 4 && s[0] == '(' && s[2] == ')' && s[3] == ' ' && 65 <= s[1] as int <= 90
}

/// The records whose rendering reparses to the record itself.
///
/// A record survives the round trip when: the priority is a letter index or
/// the absent sentinel; every present date has valid fields; a finish date
/// only stands on a finished task, and never alone where the
/// date-disambiguation rule would reassign it; the
/// token listings are empty and the subject is plain free text; the generic
/// tag keys are distinct, unreserved and well shaped; and, where the header
/// reparse looks at the tail, the tail does not imitate a date, a priority
/// marker or the completion marker.
pub open spec fn round_trippable(t: TaskView) -> bool {
    &&& t.priority <= 26
    &&& (t.finish_date matches Some(d) ==> d.valid())
    &&& (t.create_date matches Some(d) ==> d.valid())
    &&& (t.due_date matches Some(d) ==> d.valid())
    &&& (t.threshold_date matches Some(d) ==> d.valid())
    &&& (t.finish_date is Some ==> t.finished)
    &&& (t.finished && t.finish_date is Some ==> t.priority < 26 || t.create_date is Some)
    &&& t.contexts.len() == 0
    &&& t.projects.len() == 0
    &&& t.hashtags.len() == 0
    &&& plain_text(t.subject)
    &&& (forall|i: int|
        0 <= i < t.tags.len() ==> key_shape((#[trigger] t.tags[i]).0) && value_shape(
            t.tags[i].1,
        ))
    &&& (forall|i: int|
        0 <= i < t.tags.len() ==> (#[trigger] t.tags[i]).0 != seq!['r', 'e', 'c']
            && t.tags[i].0 != seq!['d', 'u', 'e'] && t.tags[i].0 != seq!['t'])
    &&& (forall|i: int, j: int|
        0 <= i < j < t.tags.len() ==> (#[trigger] t.tags[i]).0 != (#[trigger] t.tags[j]).0)
    &&& (header_guard_needed(t) ==> date_head(render_tail(t)) is None)
    &&& (header_guard_needed(t) ==> !prio_marker_shape(render_tail(t)))
    &&& (!t.finished && t.priority == 26 && t.create_date is None ==> !(render_tail(t).len()
        >= 2 && render_tail(t)[0] == 'x' && render_tail(t)[1] == ' '))
}

/// A date head stands wherever a valid date's rendering is followed by a
/// space.
proof fn lemma_date_head_of_render(d: Date, rest: Seq<char>)
    requires
        d.valid(),
    ensures
        date_head(date_chars(d) + seq![' '] + rest) == Some(d),
        (date_chars(d) + seq![' '] + rest).skip(11) == rest,
{
    let s = date_chars(d) + seq![' '] + rest;
    lemma_date_chars_shape(d);
    lemma_date_round_trip(d);
    assert(s.take(10) =~= date_chars(d));
    assert(s[10] == ' ');
    assert(s.skip(11) =~= rest);
}

/// No date head stands where the first character is not a digit.
proof fn lemma_date_head_none(s: Seq<char>)
    requires
        s.len() > 0,
        !is_digit(s[0]),
    ensures
        date_head(s) is None,
{
    if s.len() >= 11 && s[10] == ' ' {
        assert(s.take(10)[0] == s[0]);
    }
}

/// The header of a rendered round-trippable record reparses to the same
/// header fields, and leaves exactly the rendered tail.
/// The priority and creation-date stages of the header parser, on the text
/// they see when the finish slot took nothing off the tail.
#[verifier::rlimit(100)]
proof fn lemma_stage_after_finish(t: TaskView)
    requires
        round_trippable(t),
    ensures
        ({
            let s2 = (if t.priority < 26 {
                seq!['(', prio_char(t.priority), ')', ' ']
            } else {
                Seq::<char>::empty()
            }) + (opt_date_head_chars(t.create_date) + render_tail(t));
            let marker = s2.len() >= 4 && s2[0] == '(' && s2[2] == ')' && s2[3] == ' ' && 65
                <= s2[1] as int <= 90;
            let prio = if marker {
                (s2[1] as int - 65) as u8
            } else {
                26u8
            };
            let s3 = if marker {
                s2.skip(4)
            } else {
                s2
            };
            let create0 = date_head(s3);
            let s4 = if create0 is Some {
                s3.skip(11)
            } else {
                s3
            };
            prio == t.priority && create0 == t.create_date && s4 == render_tail(t)
        }),
{
    let tail = render_tail(t);
    let ppart = if t.priority < 26 {
        seq!['(', prio_char(t.priority), ')', ' ']
    } else {
        Seq::<char>::empty()
    };
    let after_p = opt_date_head_chars(t.create_date) + tail;
    let s2 = ppart + after_p;
    if t.create_date is Some {
        lemma_date_chars_shape(t.create_date->Some_0);
        assert(after_p =~= date_chars(t.create_date->Some_0) + seq![' '] + tail);
        lemma_date_head_of_render(t.create_date->Some_0, tail);
        assert(date_head(after_p) == t.create_date);
        assert(after_p.skip(11) =~= tail);
    } else {
        assert(after_p =~= tail);
    }
    let marker = s2.len() >= 4 && s2[0] == '(' && s2[2] == ')' && s2[3] == ' ' && 65 <= s2[1]
        as int <= 90;
    if t.priority < 26 {
        assert(65 <= prio_char(t.priority) as int <= 90 && prio_char(t.priority) as int == 65
            + t.priority as int) by {
            assert(((65 + t.priority as int) as u8) == 65 + t.priority as int);
        }
        assert(marker);
        assert(s2.skip(4) =~= after_p);
    } else {
        assert(s2 =~= after_p);
        if t.create_date is Some {
            assert(s2[0] == after_p[0]);
            assert(is_digit(s2[0]));
            assert('(' as int == 40);
            assert(!marker);
        } else {
            assert(s2 =~= tail);
            assert(header_guard_needed(t));
            assert(!prio_marker_shape(tail));
            assert(!marker);
        }
    }
    let s3 = if marker {
        s2.skip(4)
    } else {
        s2
    };
    assert(s3 =~= after_p);
    if t.create_date is None {
        assert(s3 =~= tail);
        assert(header_guard_needed(t));
        assert(date_head(s3) is None);
    }
}

/// What a rendered record decomposes into: the three header parts, then
/// the tail.
#[verifier::rlimit(100)]
proof fn lemma_render_decomp(t: TaskView)
    ensures
        render_chars(t) == (if t.finished {
            seq!['x', ' '] + opt_date_head_chars(t.finish_date)
        } else {
            Seq::<char>::empty()
        }) + ((if t.priority < 26 {
            seq!['(', prio_char(t.priority), ')', ' ']
        } else {
            Seq::<char>::empty()
        }) + (opt_date_head_chars(t.create_date) + render_tail(t))),
{
    assert(render_chars(t) =~= (if t.finished {
        seq!['x', ' '] + opt_date_head_chars(t.finish_date)
    } else {
        Seq::<char>::empty()
    }) + ((if t.priority < 26 {
        seq!['(', prio_char(t.priority), ')', ' ']
    } else {
        Seq::<char>::empty()
    }) + (opt_date_head_chars(t.create_date) + render_tail(t))));
}

/// The header reparse of an unfinished rendered record.
#[verifier::rlimit(100)]
proof fn lemma_header_unfinished(t: TaskView)
    requires
        round_trippable(t),
        !t.finished,
    ensures
        ({
            let h = spec_header(render_chars(t));
            &&& h.finished == t.finished
            &&& h.finish_date == t.finish_date
            &&& h.priority == t.priority
            &&& h.create_date == t.create_date
            &&& h.rest == render_tail(t)
        }),
{
    let line = render_chars(t);
    let tail = render_tail(t);
    let cpart = opt_date_head_chars(t.create_date);
    let after_p = cpart + tail;
    let after_x = (if t.priority < 26 {
        seq!['(', prio_char(t.priority), ')', ' ']
    } else {
        Seq::<char>::empty()
    }) + after_p;
    lemma_render_decomp(t);
    assert(line =~= after_x);
    lemma_stage_after_finish(t);
    // the line does not begin with the completion marker
    let finished0 = line.len() >= 2 && line[0] == 'x' && line[1] == ' ';
    assert(!finished0) by {
        if t.priority < 26 {
            assert(line[0] == '(');
            assert('(' as int == 40 && 'x' as int == 120);
        } else if t.create_date is Some {
            lemma_date_chars_shape(t.create_date->Some_0);
            assert(after_p =~= date_chars(t.create_date->Some_0) + seq![' '] + tail);
            assert(line[0] == after_p[0]);
            assert(is_digit(line[0]));
            assert('x' as int == 120);
        } else {
            assert(line =~= tail);
        }
    }
    let h = spec_header(line);
    assert(h.rest =~= tail);
}

/// The header reparse of a finished rendered record, outside the
/// disambiguation path.
#[verifier::rlimit(100)]
proof fn lemma_header_finished_main(t: TaskView)
    requires
        round_trippable(t),
        t.finished,
        !(t.priority == 26 && t.finish_date is None && t.create_date is Some),
    ensures
        ({
            let h = spec_header(render_chars(t));
            &&& h.finished == t.finished
            &&& h.finish_date == t.finish_date
            &&& h.priority == t.priority
            &&& h.create_date == t.create_date
            &&& h.rest == render_tail(t)
        }),
{
    let line = render_chars(t);
    let tail = render_tail(t);
    let cpart = opt_date_head_chars(t.create_date);
    let after_p = cpart + tail;
    let after_x = (if t.priority < 26 {
        seq!['(', prio_char(t.priority), ')', ' ']
    } else {
        Seq::<char>::empty()
    }) + after_p;
    lemma_render_decomp(t);
    lemma_stage_after_finish(t);
    assert(line.len() >= 2 && line[0] == 'x' && line[1] == ' ');
    let s1 = line.skip(2);
    let fin0 = date_head(s1);
    if t.finish_date is Some {
        let fd = t.finish_date->Some_0;
        assert(s1 =~= date_chars(fd) + seq![' '] + after_x);
        lemma_date_head_of_render(fd, after_x);
        assert(fin0 == Some(fd));
        assert(s1.skip(11) == after_x);
    } else {
        assert(s1 =~= after_x);
        if t.priority < 26 {
            assert(s1[0] == '(');
            assert(!is_digit('(')) by {
                assert('(' as int == 40);
            }
            lemma_date_head_none(s1);
        } else {
            // here the creation date is also absent, so what follows the
            // marker is the tail itself, guarded against looking like a date
            assert(t.create_date is None);
            assert(s1 =~= tail);
            assert(header_guard_needed(t));
        }
        assert(fin0 is None);
    }
    let s2 = if fin0 is Some {
        s1.skip(11)
    } else {
        s1
    };
    assert(s2 =~= after_x);
    let h = spec_header(line);
    // the disambiguation rule does not fire: a present tentative finish
    // date comes with a priority marker or a creation date
    if t.priority == 26 && fin0 is Some {
        assert(t.finish_date is Some);
        assert(t.create_date is Some);
    }
    assert(h.rest =~= tail);
}

/// The header reparse of a finished rendered record on the disambiguation
/// path: no priority, no finish date, a creation date.  The creation date
/// is captured tentatively as a finish date and handed back by the rule.
#[verifier::rlimit(100)]
proof fn lemma_header_finished_disambig(t: TaskView)
    requires
        round_trippable(t),
        t.finished,
        t.priority == 26,
        t.finish_date is None,
        t.create_date is Some,
    ensures
        ({
            let h = spec_header(render_chars(t));
            &&& h.finished == t.finished
            &&& h.finish_date == t.finish_date
            &&& h.priority == t.priority
            &&& h.create_date == t.create_date
            &&& h.rest == render_tail(t)
        }),
{
    let line = render_chars(t);
    let tail = render_tail(t);
    let cd = t.create_date->Some_0;
    lemma_render_decomp(t);
    assert(line =~= seq!['x', ' '] + (opt_date_head_chars(t.create_date) + tail));
    assert(line.len() >= 2 && line[0] == 'x' && line[1] == ' ');
    let s1 = line.skip(2);
    assert(s1 =~= date_chars(cd) + seq![' '] + tail);
    lemma_date_head_of_render(cd, tail);
    let fin0 = date_head(s1);
    assert(fin0 == Some(cd));
    let s2 = s1.skip(11);
    assert(s2 =~= tail);
    assert(header_guard_needed(t));
    let marker = s2.len() >= 4 && s2[0] == '(' && s2[2] == ')' && s2[3] == ' ' && 65 <= s2[1]
        as int <= 90;
    assert(!marker) by {
        assert(!prio_marker_shape(tail));
    }
    assert(date_head(s2) is None);
    let h = spec_header(line);
    assert(h.priority == 26 && h.create_date == Some(cd) && h.finish_date is None);
    assert(h.rest =~= tail);
}

/// Chunk listings render one after another.
proof fn lemma_tags_chars_concat(a: Seq<(Seq<char>, Seq<char>)>, b: Seq<(Seq<char>, Seq<char>)>)
    ensures
        tags_chars(a + b) == tags_chars(a) + tags_chars(b),
    decreases b.len(),
{
    if b.len() == 0 {
        assert(a + b =~= a);
        assert(tags_chars(a) + tags_chars(b) =~= tags_chars(a));
    } else {
        lemma_tags_chars_concat(a, b.drop_last());
        assert((a + b).drop_last() =~= a + b.drop_last());
        assert((a + b).last() == b.last());
        assert(tags_chars(a) + (tags_chars(b.drop_last()) + tag_chunk(b.last())) =~= (
        tags_chars(a) + tags_chars(b.drop_last())) + tag_chunk(b.last()));
    }
}

/// Applying a concatenated listing applies the parts one after another.
proof fn lemma_apply_list_concat(
    acc: ScanAcc,
    a: Seq<(Seq<char>, Seq<char>)>,
    b: Seq<(Seq<char>, Seq<char>)>,
)
    ensures
        apply_list(acc, a + b) == apply_list(apply_list(acc, a), b),
    decreases b.len(),
{
    if b.len() == 0 {
        assert(a + b =~= a);
    } else {
        lemma_apply_list_concat(acc, a, b.drop_last());
        assert((a + b).drop_last() =~= a + b.drop_last());
        assert((a + b).last() == b.last());
    }
}

/// The reserved keys are well shaped and pairwise distinct.
proof fn lemma_reserved_key_shapes()
    ensures
        key_shape(seq!['d', 'u', 'e']),
        key_shape(seq!['t']),
        key_shape(seq!['r', 'e', 'c']),
        seq!['d', 'u', 'e'] != seq!['r', 'e', 'c'],
        seq!['t'] != seq!['r', 'e', 'c'],
        seq!['t'] != seq!['d', 'u', 'e'],
{
    assert('d' as int == 100 && 't' as int == 116 && 'r' as int == 114);
    assert(is_lower('d') && is_lower('t') && is_lower('r'));
    let rk = seq!['r', 'e', 'c'];
    assert forall|i: int| 0 <= i < rk.len() implies #[trigger] rk[i] != ' ' && rk[i]
        != ':' by {
        if i == 0 {
            assert(rk[i] == 'r');
        } else if i == 1 {
            assert(rk[i] == 'e');
        } else {
            assert(rk[i] == 'c');
        }
    }
    let due = seq!['d', 'u', 'e'];
    assert forall|i: int| 0 <= i < due.len() implies #[trigger] due[i] != ' ' && due[i]
        != ':' by {
        if i == 0 {
            assert(due[i] == 'd');
        } else if i == 1 {
            assert(due[i] == 'u');
        } else {
            assert(due[i] == 'e');
        }
    }
    let tk = seq!['t'];
    assert forall|i: int| 0 <= i < tk.len() implies #[trigger] tk[i] != ' ' && tk[i] != ':' by {
        assert(tk[i] == 't');
    }
    assert(due[0] != seq!['r', 'e', 'c'][0]);
    assert(tk.len() != seq!['r', 'e', 'c'].len());
    assert(tk.len() != due.len());
}

/// The compact body of a rendered recurrence, after the four characters
/// `rec:`: it is non-empty and holds no space, so it scans as one tag
/// value.
proof fn lemma_rec_body_shape(r: Recurrence)
    ensures
        rec_chars(r).len() > 4,
        value_shape(rec_chars(r).skip(4)),
{
    let n = r.num() as int;
    crate::text::lemma_dec_digits_val(n);
    let digits = crate::text::dec_digits(n);
    let body = rec_chars(r).skip(4);
    let hard: int = if r.hard() {
        1
    } else {
        0
    };
    if r.hard() {
        assert(body =~= seq!['+'] + digits + seq![r.kind_char()]);
    } else {
        assert(body =~= digits + seq![r.kind_char()]);
    }
    assert(' ' as int == 32 && '+' as int == 43);
    assert(r.kind_char() != ' ') by {
        assert('d' as int == 100 && 'b' as int == 98 && 'm' as int == 109 && 'w' as int == 119
            && 'y' as int == 121);
    }
    assert forall|i: int| 0 <= i < body.len() implies #[trigger] body[i] != ' ' by {
        if r.hard() && i == 0 {
            assert(body[i] == '+');
        } else if i < hard + digits.len() {
            assert(body[i] == digits[i - hard]);
            assert(is_digit(digits[i - hard]));
        } else {
            assert(body[i] == r.kind_char());
        }
    }
}

/// The rendered reserved and generic tags, as one listing of key/value
/// pairs in their rendered order.
pub open spec fn render_pairs(t: TaskView) -> Seq<(Seq<char>, Seq<char>)> {
    (match t.due_date {
        Some(d) => seq![(seq!['d', 'u', 'e'], date_chars(d))],
        None => Seq::<(Seq<char>, Seq<char>)>::empty(),
    }) + (match t.threshold_date {
        Some(d) => seq![(seq!['t'], date_chars(d))],
        None => Seq::<(Seq<char>, Seq<char>)>::empty(),
    }) + (match t.recurrence {
        Some(r) => seq![(seq!['r', 'e', 'c'], rec_chars(r).skip(4))],
        None => Seq::<(Seq<char>, Seq<char>)>::empty(),
    }) + t.tags
}

/// The rendered tail is the subject followed by the rendered pair listing,
/// whose pairs are all well shaped.
#[verifier::rlimit(100)]
proof fn lemma_render_pairs_facts(t: TaskView)
    requires
        round_trippable(t),
    ensures
        render_tail(t) == t.subject + tags_chars(render_pairs(t)),
        forall|i: int|
            0 <= i < render_pairs(t).len() ==> key_shape((#[trigger] render_pairs(t)[i]).0)
                && value_shape(render_pairs(t)[i].1),
        render_pairs(t).len() == 0 ==> t.due_date is None && t.threshold_date is None
            && t.recurrence is None && t.tags.len() == 0,
{
    lemma_reserved_key_shapes();
    let dpairs: Seq<(Seq<char>, Seq<char>)> = match t.due_date {
        Some(d) => seq![(seq!['d', 'u', 'e'], date_chars(d))],
        None => Seq::<(Seq<char>, Seq<char>)>::empty(),
    };
    let tpairs: Seq<(Seq<char>, Seq<char>)> = match t.threshold_date {
        Some(d) => seq![(seq!['t'], date_chars(d))],
        None => Seq::<(Seq<char>, Seq<char>)>::empty(),
    };
    let rpairs: Seq<(Seq<char>, Seq<char>)> = match t.recurrence {
        Some(r) => seq![(seq!['r', 'e', 'c'], rec_chars(r).skip(4))],
        None => Seq::<(Seq<char>, Seq<char>)>::empty(),
    };
    let resv = dpairs + tpairs + rpairs;
    let pairs = resv + t.tags;
    if t.due_date is Some {
        lemma_date_chars_shape(t.due_date->Some_0);
    }
    if t.threshold_date is Some {
        lemma_date_chars_shape(t.threshold_date->Some_0);
    }
    if t.recurrence is Some {
        lemma_rec_body_shape(t.recurrence->Some_0);
    }
    assert(tags_chars(Seq::<(Seq<char>, Seq<char>)>::empty()) == Seq::<char>::empty());
    assert(tags_chars(dpairs) == due_chunk(t.due_date)) by {
        match t.due_date {
            Some(d) => {
                assert(dpairs.drop_last() =~= Seq::<(Seq<char>, Seq<char>)>::empty());
                assert(dpairs.last() == (seq!['d', 'u', 'e'], date_chars(d)));
                assert(tags_chars(dpairs) == tags_chars(dpairs.drop_last()) + tag_chunk(
                    dpairs.last(),
                ));
                assert(Seq::<char>::empty() + tag_chunk(dpairs.last()) =~= tag_chunk(
                    dpairs.last(),
                ));
                assert(tag_chunk((seq!['d', 'u', 'e'], date_chars(d))) =~= due_chunk(
                    t.due_date,
                ));
            },
            None => {
                assert(tags_chars(dpairs) =~= due_chunk(t.due_date));
            },
        }
    }
    assert(tags_chars(tpairs) == threshold_chunk(t.threshold_date)) by {
        match t.threshold_date {
            Some(d) => {
                assert(tpairs.drop_last() =~= Seq::<(Seq<char>, Seq<char>)>::empty());
                assert(tpairs.last() == (seq!['t'], date_chars(d)));
                assert(tags_chars(tpairs) == tags_chars(tpairs.drop_last()) + tag_chunk(
                    tpairs.last(),
                ));
                assert(Seq::<char>::empty() + tag_chunk(tpairs.last()) =~= tag_chunk(
                    tpairs.last(),
                ));
                assert(tag_chunk((seq!['t'], date_chars(d))) =~= threshold_chunk(
                    t.threshold_date,
                ));
            },
            None => {
                assert(tags_chars(tpairs) =~= threshold_chunk(t.threshold_date));
            },
        }
    }
    assert(tags_chars(rpairs) == rec_chunk(t.recurrence)) by {
        match t.recurrence {
            Some(r) => {
                assert(rpairs.drop_last() =~= Seq::<(Seq<char>, Seq<char>)>::empty());
                assert(rpairs.last() == (seq!['r', 'e', 'c'], rec_chars(r).skip(4)));
                assert(tags_chars(rpairs) == tags_chars(rpairs.drop_last()) + tag_chunk(
                    rpairs.last(),
                ));
                assert(Seq::<char>::empty() + tag_chunk(rpairs.last()) =~= tag_chunk(
                    rpairs.last(),
                ));
                assert(tag_chunk((seq!['r', 'e', 'c'], rec_chars(r).skip(4))) =~= rec_chunk(
                    t.recurrence,
                ));
            },
            None => {
                assert(tags_chars(rpairs) =~= rec_chunk(t.recurrence));
            },
        }
    }
    lemma_tags_chars_concat(dpairs, tpairs);
    lemma_tags_chars_concat(dpairs + tpairs, rpairs);
    lemma_tags_chars_concat(resv, t.tags);
    assert(render_tail(t) =~= t.subject + tags_chars(pairs));
    assert forall|i: int| 0 <= i < pairs.len() implies key_shape((#[trigger] pairs[i]).0)
        && value_shape(pairs[i].1) by {
        if i < dpairs.len() {
            assert(pairs[i] == dpairs[0]);
        } else if i < dpairs.len() + tpairs.len() {
            assert(pairs[i] == tpairs[i - dpairs.len()]);
        } else if i < resv.len() {
            assert(pairs[i] == rpairs[i - dpairs.len() - tpairs.len()]);
        } else {
            assert(pairs[i] == t.tags[i - resv.len()]);
        }
    }
}

/// Applying the rendered pair listing to an accumulator with no stored
/// tags sets exactly the record's reserved dates and generic tags.
#[verifier::rlimit(100)]
proof fn lemma_apply_render_pairs(t: TaskView, acc1: ScanAcc)
    requires
        round_trippable(t),
        acc1.tags.len() == 0,
        acc1.due_date is None,
        acc1.threshold_date is None,
        acc1.recurrence is None,
    ensures
        ({
            let r = apply_list(acc1, render_pairs(t));
            &&& r.subject == acc1.subject
            &&& r.contexts == acc1.contexts
            &&& r.projects == acc1.projects
            &&& r.hashtags == acc1.hashtags
            &&& r.tags == t.tags
            &&& r.due_date == t.due_date
            &&& r.threshold_date == t.threshold_date
            &&& r.recurrence == t.recurrence
        }),
{
    lemma_reserved_key_shapes();
    let dpairs: Seq<(Seq<char>, Seq<char>)> = match t.due_date {
        Some(d) => seq![(seq!['d', 'u', 'e'], date_chars(d))],
        None => Seq::<(Seq<char>, Seq<char>)>::empty(),
    };
    let tpairs: Seq<(Seq<char>, Seq<char>)> = match t.threshold_date {
        Some(d) => seq![(seq!['t'], date_chars(d))],
        None => Seq::<(Seq<char>, Seq<char>)>::empty(),
    };
    let rpairs: Seq<(Seq<char>, Seq<char>)> = match t.recurrence {
        Some(r) => seq![(seq!['r', 'e', 'c'], rec_chars(r).skip(4))],
        None => Seq::<(Seq<char>, Seq<char>)>::empty(),
    };
    let resv = dpairs + tpairs + rpairs;
    let pairs = resv + t.tags;
    assert(pairs == render_pairs(t));
    lemma_apply_list_concat(acc1, resv, t.tags);
    lemma_apply_list_concat(acc1, dpairs + tpairs, rpairs);
    lemma_apply_list_concat(acc1, dpairs, tpairs);
    let accd = apply_list(acc1, dpairs);
    assert(apply_list(acc1, Seq::<(Seq<char>, Seq<char>)>::empty()) == acc1);
    assert(accd == (ScanAcc { due_date: t.due_date, ..acc1 })) by {
        match t.due_date {
            Some(d) => {
                assert(dpairs.drop_last() =~= Seq::<(Seq<char>, Seq<char>)>::empty());
                assert(dpairs.last() == (seq!['d', 'u', 'e'], date_chars(d)));
                assert(accd == apply_tag(apply_list(acc1, dpairs.drop_last()), dpairs.last().0,
                    dpairs.last().1));
                assert(accd == apply_tag(acc1, seq!['d', 'u', 'e'], date_chars(d)));
                lemma_date_round_trip(d);
            },
            None => {
                assert(accd == acc1);
                assert(acc1.due_date is None);
            },
        }
    }
    let acct = apply_list(acc1, dpairs + tpairs);
    assert(acct == (ScanAcc { threshold_date: t.threshold_date, ..accd })) by {
        match t.threshold_date {
            Some(d) => {
                assert(tpairs.drop_last() =~= Seq::<(Seq<char>, Seq<char>)>::empty());
                assert(tpairs.last() == (seq!['t'], date_chars(d)));
                assert(apply_list(accd, tpairs) == apply_tag(apply_list(accd,
                    tpairs.drop_last()), tpairs.last().0, tpairs.last().1));
                assert(apply_list(accd, Seq::<(Seq<char>, Seq<char>)>::empty()) == accd);
                assert(acct == apply_tag(accd, seq!['t'], date_chars(d)));
                lemma_date_round_trip(d);
            },
            None => {
                assert(acct == accd);
                assert(accd.threshold_date is None);
            },
        }
    }
    let accq = apply_list(acc1, resv);
    assert(accq == (ScanAcc { recurrence: t.recurrence, ..acct })) by {
        match t.recurrence {
            Some(r) => {
                assert(rpairs.drop_last() =~= Seq::<(Seq<char>, Seq<char>)>::empty());
                assert(rpairs.last() == (seq!['r', 'e', 'c'], rec_chars(r).skip(4)));
                assert(apply_list(acct, rpairs) == apply_tag(apply_list(acct,
                    rpairs.drop_last()), rpairs.last().0, rpairs.last().1));
                assert(apply_list(acct, Seq::<(Seq<char>, Seq<char>)>::empty()) == acct);
                assert(accq == apply_tag(acct, seq!['r', 'e', 'c'], rec_chars(r).skip(4)));
                lemma_recurrence_round_trip(r);
                assert(spec_parse_rec(rec_chars(r).skip(4)) == Some(r));
            },
            None => {
                assert(accq == acct);
                assert(acct.recurrence is None);
            },
        }
    }
    assert(accq.tags =~= Seq::<(Seq<char>, Seq<char>)>::empty());
    lemma_apply_generic(accq, t.tags);
    assert(apply_list(accq, t.tags).tags =~= t.tags);
}

/// The token scan of a rendered tail: the subject comes back verbatim, the
/// reserved tags parse back into their fields, the generic tags are stored
/// in order, and no context, project or hashtag is registered.
#[verifier::rlimit(100)]
proof fn lemma_scan_tail_of_render(t: TaskView)
    requires
        round_trippable(t),
    ensures
        ({
            let run = scan_run(render_tail(t), ScanState::Init, empty_acc());
            let acc = scan_finish(run.0, run.1);
            &&& acc.subject == t.subject
            &&& acc.contexts == t.contexts
            &&& acc.projects == t.projects
            &&& acc.hashtags == t.hashtags
            &&& acc.tags == t.tags
            &&& acc.threshold_date == t.threshold_date
            &&& acc.due_date == t.due_date
            &&& acc.recurrence == t.recurrence
        }),
{
    let tail = render_tail(t);
    let sub = t.subject;
    let acc0 = empty_acc();
    let pairs = render_pairs(t);
    lemma_render_pairs_facts(t);
    assert(t.contexts =~= Seq::<Seq<char>>::empty());
    assert(t.projects =~= Seq::<Seq<char>>::empty());
    assert(t.hashtags =~= Seq::<Seq<char>>::empty());
    lemma_scan_plain(sub, acc0);
    let st_s = scan_plain_state(sub);
    let p = scan_pending(st_s);
    let acc_s = plus_subject(acc0, sub.take(sub.len() - p.len()));
    lemma_scan_append(sub, tags_chars(pairs), ScanState::Init, acc0);
    assert(scan_run(tail, ScanState::Init, acc0) == scan_run(tags_chars(pairs), st_s, acc_s));
    if pairs.len() == 0 {
        assert(t.tags =~= Seq::<(Seq<char>, Seq<char>)>::empty());
        assert(tags_chars(pairs) =~= Seq::<char>::empty());
        let run = scan_run(tail, ScanState::Init, acc0);
        assert(run == (st_s, acc_s));
        match st_s {
            ScanState::Init => {
                assert(acc_s.subject =~= sub);
            },
            ScanState::Key(q) => {
                assert(scan_finish(st_s, acc_s).subject =~= sub) by {
                    assert(sub.take(sub.len() - q.len()) + q =~= sub);
                    assert(acc0.subject + sub.take(sub.len() - q.len()) =~= sub.take(
                        sub.len() - q.len(),
                    ));
                }
            },
            _ => {
                assert(false);
            },
        }
    } else {
        lemma_scan_pairs(pairs, st_s, acc_s);
        let acc1 = scan_step(st_s, acc_s, ' ').1;
        assert(acc1 == plus_subject(acc0, sub + seq![' '])) by {
            match st_s {
                ScanState::Init => {
                    assert(acc_s.subject =~= acc0.subject + sub);
                    assert(acc_s.subject.push(' ') =~= acc0.subject + (sub + seq![' ']));
                },
                ScanState::Key(q) => {
                    assert(acc_s.subject + q + seq![' '] =~= acc0.subject + (sub + seq![' ']))
                        by {
                        assert(sub.take(sub.len() - q.len()) + q =~= sub);
                    }
                },
                _ => {
                    assert(false);
                },
            }
        }
        let run = scan_run(tags_chars(pairs), st_s, acc_s);
        assert(run.0 == ScanState::KeyVal(pairs.last().0, pairs.last().1));
        assert(run.1 == apply_list(acc1, pairs.drop_last()));
        assert(value_shape(pairs.last().1));
        let acc2 = apply_tag(run.1, pairs.last().0, pairs.last().1);
        assert(scan_finish(run.0, run.1) == (ScanAcc {
            subject: strip_trailing_space(acc2.subject),
            ..acc2
        }));
        assert(acc2 == apply_list(acc1, pairs));
        lemma_apply_render_pairs(t, acc1);
        assert(strip_trailing_space(acc2.subject) =~= sub) by {
            assert(acc2.subject =~= sub + seq![' ']);
            assert((sub + seq![' ']).last() == ' ');
            assert((sub + seq![' ']).drop_last() =~= sub);
        }
    }
}

/// The header of a rendered round-trippable record reparses to the same
/// header fields, and leaves exactly the rendered tail.
proof fn lemma_header_of_render(t: TaskView)
    requires
        round_trippable(t),
    ensures
        ({
            let h = spec_header(render_chars(t));
            &&& h.finished == t.finished
            &&& h.finish_date == t.finish_date
            &&& h.priority == t.priority
            &&& h.create_date == t.create_date
            &&& h.rest == render_tail(t)
        }),
{
    if !t.finished {
        lemma_header_unfinished(t);
    } else if t.priority == 26 && t.finish_date is None && t.create_date is Some {
        lemma_header_finished_disambig(t);
    } else {
        lemma_header_finished_main(t);
    }
}

/// The round-trip law: rendering a [`round_trippable`] record and parsing
/// the rendered line back yields the record itself — the subject, the
/// priority, the completion state, every date, the token listings and the
/// generic tags all come back unchanged.
pub proof fn lemma_render_parse_round_trip(t: TaskView)
    requires
        round_trippable(t),
    ensures
        spec_parse_task(render_chars(t)) == t,
{
    lemma_header_of_render(t);
    lemma_scan_tail_of_render(t);
    let h = spec_header(render_chars(t));
    let run = scan_run(h.rest, ScanState::Init, empty_acc());
    let acc = scan_finish(run.0, run.1);
    assert(h.rest == render_tail(t));
    assert(acc.subject == t.subject);
    assert(spec_parse_task(render_chars(t)) == t);
}

} // verus!
