//! Messages of command files: queued, applied one at a time, and read from bytes.
use crate::system_state::{Message, SystemState};
use std::collections::VecDeque;
use crate::text::{chars_of, find_char, push_range, string_of, utf8_text};
use vstd::utf8::{decode_utf8, valid_utf8};
use vstd::prelude::*;

verus! {

/// The queue and the completion flag after `messages` were added.
pub open spec fn queue_after_adding(queue: Seq<Message>, completed: bool, messages: Seq<Message>) -> (
    Seq<Message>,
    bool,
) {
    (queue + messages, completed && messages.len() == 0)
}

/// Whether a batch message may be applied now: no background operation is under way.
pub open spec fn may_start_batch_command(busy: bool) -> bool {
    !busy
}

/// The message that is applied next, if one may be applied now.
pub open spec fn next_batch_message(queue: Seq<Message>, busy: bool) -> Option<Message> {
    if may_start_batch_command(busy) && queue.len() > 0 {
        Some(queue[0])
    } else {
        None
    }
}

/// Whether the batch is found complete now: nothing queued, nothing under way, and it was
/// not complete before.
pub open spec fn batch_becomes_complete(queue: Seq<Message>, completed: bool, busy: bool) -> bool {
    !completed && queue.len() == 0 && may_start_batch_command(busy)
}

/// The messages of command files that wait to be applied, in order, and whether the batch
/// is complete: all its messages applied and their effects done. A complete batch has
/// nothing queued.
#[derive(Debug)]
pub struct BatchQueue {
    messages: VecDeque<Message>,
    completed: bool,
}

impl BatchQueue {
    /// A complete batch has nothing queued.
    #[verifier::type_invariant]
    spec fn complete_means_empty(self) -> bool {
        self.completed ==> self.messages@.len() == 0
    }

    /// The messages waiting, in order.
    pub closed spec fn queued(self) -> Seq<Message> {
        self.messages@
    }

    /// Whether the batch is complete.
    pub closed spec fn done(self) -> bool {
        self.completed
    }

    /// A complete batch, with nothing queued.
    pub fn new() -> (res: Self)
        ensures
            res.queued().len() == 0,
            res.done(),
    {
        BatchQueue { messages: VecDeque::new(), completed: true }
    }

    /// The number of messages waiting.
    pub fn len(&self) -> (res: usize)
        ensures
            res == self.queued().len(),
    {
        self.messages.len()
    }

    /// Whether the batch is complete.
    pub fn is_done(&self) -> (res: bool)
        ensures
            res == self.done(),
            res ==> self.queued().len() == 0,
    {
        proof {
            use_type_invariant(self);
        }
        self.completed
    }

    /// Queues `messages` after those waiting; any message makes the batch incomplete.
    pub fn push_all(&mut self, messages: Vec<Message>)
        ensures
            (final(self).queued(), final(self).done()) == queue_after_adding(
                old(self).queued(),
                old(self).done(),
                messages@,
            ),
    {
        proof {
            use_type_invariant(&*self);
        }
        let mut messages = messages;
        let ghost added = messages@;
        let ghost start = self.messages@;
        let ghost was_done = self.completed;
        let mut queue: VecDeque<Message> = VecDeque::new();
        std::mem::swap(&mut queue, &mut self.messages);
        let mut taken: usize = 0;
        assert(added.len() == messages.len());
        while messages.len() > 0
            invariant
                taken + messages@.len() == added.len(),
                added.len() <= usize::MAX,
                messages@ == added.subrange(taken as int, added.len() as int),
                queue@ == start + added.subrange(0, taken as int),
            decreases messages@.len(),
        {
            let msg = messages.remove(0);
            queue.push_back(msg);
            proof {
                assert(added.subrange(0, taken + 1) =~= added.subrange(0, taken as int).push(
                    msg,
                ));
            }
            taken = taken + 1;
            assert(messages@ =~= added.subrange(taken as int, added.len() as int));
        }
        assert(added.subrange(0, taken as int) =~= added);
        if taken > 0 {
            self.completed = false;
        }
        self.messages = queue;
    }

    /// Takes the first message waiting, if any.
    pub fn pop_front(&mut self) -> (res: Option<Message>)
        ensures
            res == (if old(self).queued().len() > 0 {
                Some(old(self).queued()[0])
            } else {
                None::<Message>
            }),
            final(self).queued() == (if res is Some {
                old(self).queued().drop_first()
            } else {
                old(self).queued()
            }),
            final(self).done() == old(self).done(),
    {
        proof {
            use_type_invariant(&*self);
        }
        let mut queue: VecDeque<Message> = VecDeque::new();
        std::mem::swap(&mut queue, &mut self.messages);
        let res = queue.pop_front();
        self.messages = queue;
        res
    }

    /// Marks the batch complete when nothing is queued; returns whether it became complete by
    /// this call.
    pub fn complete_if_empty(&mut self) -> (res: bool)
        ensures
            res == (!old(self).done() && old(self).queued().len() == 0),
            final(self).done() == (old(self).done() || res),
            final(self).queued() == old(self).queued(),
    {
        proof {
            use_type_invariant(&*self);
        }
        if !self.completed && self.messages.len() == 0 {
            self.completed = true;
            true
        } else {
            false
        }
    }
}

impl SystemState {
    /// Returns whether it is OK to start a new batch command.
    pub fn can_start_batch_command(&self) -> (res: bool)
        ensures
            res == may_start_batch_command(self.progress_tracker is Some),
    {
        self.progress_tracker.is_none()
    }

    /// Returns true once all batch commands have been completed and their effects are all
    /// executed; then nothing is queued.
    pub fn batch_commands_completed(&self) -> (res: bool)
        ensures
            res == self.batch_messages.done(),
            res ==> self.batch_messages.queued().len() == 0,
    {
        self.batch_messages.is_done()
    }

    /// Queues `messages` after those already waiting.
    pub fn add_batch_messages(&mut self, messages: Vec<Message>)
        ensures
            (final(self).batch_messages.queued(), final(self).batch_messages.done())
                == queue_after_adding(
                old(self).batch_messages.queued(),
                old(self).batch_messages.done(),
                messages@,
            ),
            final(self).progress_tracker == old(self).progress_tracker,
            final(self).user == old(self).user,
            final(self).scope_ref_to_expand == old(self).scope_ref_to_expand,
    {
        self.batch_messages.push_all(messages);
    }

    /// Queues one message after those already waiting.
    pub fn add_batch_message(&mut self, msg: Message)
        ensures
            (final(self).batch_messages.queued(), final(self).batch_messages.done())
                == queue_after_adding(
                old(self).batch_messages.queued(),
                old(self).batch_messages.done(),
                seq![msg],
            ),
            final(self).progress_tracker == old(self).progress_tracker,
            final(self).user == old(self).user,
            final(self).scope_ref_to_expand == old(self).scope_ref_to_expand,
    {
        let mut messages: Vec<Message> = Vec::new();
        messages.push(msg);
        self.add_batch_messages(messages);
    }

    /// Takes the next batch message to apply, if no background operation is under way.
    pub fn take_batch_message(&mut self) -> (res: Option<Message>)
        ensures
            res == next_batch_message(
                old(self).batch_messages.queued(),
                old(self).progress_tracker is Some,
            ),
            final(self).batch_messages.queued() == (if res is Some {
                old(self).batch_messages.queued().drop_first()
            } else {
                old(self).batch_messages.queued()
            }),
            final(self).batch_messages.done() == old(self).batch_messages.done(),
            final(self).progress_tracker == old(self).progress_tracker,
            final(self).user == old(self).user,
            final(self).scope_ref_to_expand == old(self).scope_ref_to_expand,
    {
        if self.can_start_batch_command() && self.batch_messages.len() > 0 {
            self.batch_messages.pop_front()
        } else {
            None
        }
    }

    /// Marks the batch complete when nothing is queued and nothing is under way; returns
    /// whether it became complete by this call.
    pub fn finish_batch_commands(&mut self) -> (res: bool)
        ensures
            res == batch_becomes_complete(
                old(self).batch_messages.queued(),
                old(self).batch_messages.done(),
                old(self).progress_tracker is Some,
            ),
            final(self).batch_messages.done() == (old(self).batch_messages.done() || res),
            final(self).batch_messages.queued() == old(self).batch_messages.queued(),
            final(self).progress_tracker == old(self).progress_tracker,
            final(self).user == old(self).user,
            final(self).scope_ref_to_expand == old(self).scope_ref_to_expand,
    {
        if self.can_start_batch_command() {
            self.batch_messages.complete_if_empty()
        } else {
            false
        }
    }
}

/// Messages are applied in the order in which they were queued: after `first` and then
/// `second` were added to an empty queue, and with nothing under way, `first` is applied
/// first and `second` follows it.
pub proof fn law_batch_messages_in_order(first: Message, second: Message)
    ensures
        ({
            let (q, c) = queue_after_adding(Seq::empty(), true, seq![first]);
            let (q2, c2) = queue_after_adding(q, c, seq![second]);
            &&& next_batch_message(q2, false) == Some(first)
            &&& next_batch_message(q2.drop_first(), false) == Some(second)
            &&& !c2
        }),
{
    let (q, c) = queue_after_adding(Seq::empty(), true, seq![first]);
    let (q2, c2) = queue_after_adding(q, c, seq![second]);
    assert(q2 =~= seq![first, second]);
    assert(q2.drop_first() =~= seq![second]);
}

/// A batch that has had messages added is not complete until the queue has been emptied:
/// adding messages clears the flag, and the flag is only set again on an empty queue.
pub proof fn law_batch_incomplete_while_queued(
    queue: Seq<Message>,
    completed: bool,
    busy: bool,
    messages: Seq<Message>,
)
    requires
        messages.len() > 0,
    ensures
        !queue_after_adding(queue, completed, messages).1,
        !batch_becomes_complete(queue_after_adding(queue, completed, messages).0, false, busy),
{
}

/// Whether `c` has the Unicode `White_Space` property, as `char::is_whitespace` tells.
pub open spec fn is_whitespace(c: char) -> bool {
    ('\u{9}' <= c && c <= '\u{d}') || c == ' ' || c == '\u{85}' || c == '\u{a0}' || c == '\u{1680}'
        || ('\u{2000}' <= c && c <= '\u{200a}') || c == '\u{2028}' || c == '\u{2029}' || c
        == '\u{202f}' || c == '\u{205f}' || c == '\u{3000}'
}

/// `s` without its leading white space.
pub open spec fn trim_start_ws(s: Seq<char>) -> Seq<char>
    decreases s.len(),
{
    if s.len() > 0 && is_whitespace(s[0]) {
        trim_start_ws(s.drop_first())
    } else {
        s
    }
}

/// `s` without its trailing white space.
pub open spec fn trim_end_ws(s: Seq<char>) -> Seq<char>
    decreases s.len(),
{
    if s.len() > 0 && is_whitespace(s.last()) {
        trim_end_ws(s.drop_last())
    } else {
        s
    }
}

/// `s` without leading and trailing white space, as `str::trim` gives it.
pub open spec fn trimmed(s: Seq<char>) -> Seq<char> {
    trim_end_ws(trim_start_ws(s))
}

/// The part of `s` before its first `#`: a comment runs to the end of the line.
pub open spec fn before_comment(s: Seq<char>) -> Seq<char> {
    match s.index_of_first('#') {
        Some(i) => s.take(i),
        None => s,
    }
}

/// The pieces of `s` between the occurrences of `sep`, as `str::split` gives them.
pub open spec fn split_pieces(s: Seq<char>, sep: char) -> Seq<Seq<char>>
    decreases s.len(),
{
    if s.len() == 0 {
        seq![Seq::empty()]
    } else {
        let p = split_pieces(s.drop_last(), sep);
        if s.last() == sep {
            p.push(Seq::empty())
        } else {
            p.update(p.len() - 1, p.last().push(s.last()))
        }
    }
}

/// The commands of one line of a command file: the line is trimmed and its comment dropped;
/// an empty line has none, another is split at `;` and each command trimmed.
pub open spec fn line_commands(line: Seq<char>) -> Seq<Seq<char>> {
    let content = before_comment(trimmed(line));
    if content.len() == 0 {
        Seq::empty()
    } else {
        split_pieces(content, ';').map_values(|c: Seq<char>| trimmed(c))
    }
}

/// The commands of the lines of a command file, each with the number of its line, counted
/// from one.
pub open spec fn numbered_commands(lines: Seq<Seq<char>>) -> Seq<(int, Seq<char>)>
    decreases lines.len(),
{
    if lines.len() == 0 {
        Seq::empty()
    } else {
        numbered_commands(lines.drop_last()) + line_commands(lines.last()).map_values(
            |c: Seq<char>| (lines.len() as int, c),
        )
    }
}

/// Trimming adds no character: one that `s` lacks, `trim_start_ws(s)` lacks too.
proof fn lemma_trim_start_within(s: Seq<char>, c: char)
    requires
        !s.contains(c),
    ensures
        !trim_start_ws(s).contains(c),
    decreases s.len(),
{
    if s.len() > 0 && is_whitespace(s[0]) {
        assert forall|i: int| 0 <= i < s.drop_first().len() implies s.drop_first()[i] != c by {
            assert(s.drop_first()[i] == s[i + 1]);
        }
        lemma_trim_start_within(s.drop_first(), c);
    }
}

/// Trimming adds no character: one that `s` lacks, `trim_end_ws(s)` lacks too.
proof fn lemma_trim_end_within(s: Seq<char>, c: char)
    requires
        !s.contains(c),
    ensures
        !trim_end_ws(s).contains(c),
    decreases s.len(),
{
    if s.len() > 0 && is_whitespace(s.last()) {
        assert forall|i: int| 0 <= i < s.drop_last().len() implies s.drop_last()[i] != c by {
            assert(s.drop_last()[i] == s[i]);
        }
        lemma_trim_end_within(s.drop_last(), c);
    }
}

/// No piece of a split holds the separator, nor a character the text lacks.
proof fn lemma_split_pieces_lack(s: Seq<char>, sep: char, c: char)
    requires
        !s.contains(c) || c == sep,
    ensures
        forall|k: int| 0 <= k < split_pieces(s, sep).len() ==> !(#[trigger] split_pieces(s, sep)[k]).contains(c),
        split_pieces(s, sep).len() >= 1,
    decreases s.len(),
{
    if s.len() > 0 {
        let t = s.drop_last();
        assert(!t.contains(c) || c == sep) by {
            if t.contains(c) && c != sep {
                let i = choose|i: int| 0 <= i < t.len() && t[i] == c;
                assert(s[i] == c);
            }
        }
        lemma_split_pieces_lack(t, sep, c);
        let p = split_pieces(t, sep);
        let r = split_pieces(s, sep);
        assert forall|k: int| 0 <= k < r.len() implies !(#[trigger] r[k]).contains(c) by {
            if s.last() == sep {
                if k < p.len() {
                    assert(r[k] == p[k]);
                } else {
                    assert(r[k] =~= Seq::<char>::empty());
                }
            } else if k < p.len() - 1 {
                assert(r[k] == p[k]);
            } else {
                let q = p.last().push(s.last());
                assert(r[k] == q);
                assert(s.last() == s[s.len() - 1]);
                assert(!p[p.len() - 1].contains(c));
                if q.contains(c) {
                    let i = choose|i: int| 0 <= i < q.len() && q[i] == c;
                    if i < q.len() - 1 {
                        assert(p.last()[i] == c);
                    }
                }
            }
        }
    }
}

/// No command of a line holds a `#` or a `;`: comments are cut off and commands split apart.
proof fn lemma_line_commands_lack(line: Seq<char>, c: char)
    requires
        c == '#' || c == ';',
    ensures
        forall|k: int| 0 <= k < line_commands(line).len() ==> !(#[trigger] line_commands(line)[k]).contains(c),
{
    let t = trimmed(line);
    let content = before_comment(t);
    if content.len() > 0 {
        t.index_of_first_ensures('#');
        assert(!content.contains('#')) by {
            match t.index_of_first('#') {
                Some(i) => {
                    if content.contains('#') {
                        let j = choose|j: int| 0 <= j < content.len() && content[j] == '#';
                        assert(t[j] == '#');
                    }
                },
                None => {},
            }
        }
        lemma_split_pieces_lack(content, ';', c);
        let pieces = split_pieces(content, ';');
        assert forall|k: int| 0 <= k < line_commands(line).len() implies !(
        #[trigger] line_commands(line)[k]).contains(c) by {
            assert(line_commands(line)[k] == trimmed(pieces[k]));
            lemma_trim_start_within(pieces[k], c);
            lemma_trim_end_within(trim_start_ws(pieces[k]), c);
        }
    }
}

/// The commands of a command file hold no `#` and no `;`: a comment runs to the end of its
/// line, and `;` only separates commands.
pub proof fn law_commands_hold_no_comment_or_separator(lines: Seq<Seq<char>>)
    ensures
        forall|k: int|
            0 <= k < numbered_commands(lines).len() ==> !(#[trigger] numbered_commands(lines)[k]).1.contains('#')
                && !numbered_commands(lines)[k].1.contains(';'),
    decreases lines.len(),
{
    if lines.len() > 0 {
        law_commands_hold_no_comment_or_separator(lines.drop_last());
        lemma_line_commands_lack(lines.last(), '#');
        lemma_line_commands_lack(lines.last(), ';');
        let a = numbered_commands(lines.drop_last());
        let b = line_commands(lines.last()).map_values(|c: Seq<char>| (lines.len() as int, c));
        assert forall|k: int| 0 <= k < (a + b).len() implies !(#[trigger] (a + b)[k]).1.contains('#')
            && !(a + b)[k].1.contains(';') by {
            if k < a.len() {
                assert((a + b)[k] == a[k]);
            } else {
                assert((a + b)[k] == b[k - a.len()]);
                assert(b[k - a.len()].1 == line_commands(lines.last())[k - a.len()]);
            }
        }
    }
}

/// The commands of all lines, one line after another, without line numbers.
pub open spec fn commands_of_lines(lines: Seq<Seq<char>>) -> Seq<Seq<char>>
    decreases lines.len(),
{
    if lines.len() == 0 {
        Seq::empty()
    } else {
        commands_of_lines(lines.drop_last()) + line_commands(lines.last())
    }
}

/// The texts of numbered commands.
pub open spec fn command_texts(cmds: Seq<(int, Seq<char>)>) -> Seq<Seq<char>> {
    cmds.map_values(|c: (int, Seq<char>)| c.1)
}

/// The commands of a file are those of its lines in order: blank lines and comment-only lines
/// add none, so a command file gives the same commands however its commands are spread over
/// lines and `;`. Each command carries the number of its line, counted from one, and the
/// numbers never decrease.
pub proof fn law_commands_line_by_line(lines: Seq<Seq<char>>)
    ensures
        command_texts(numbered_commands(lines)) == commands_of_lines(lines),
        forall|k: int|
            0 <= k < numbered_commands(lines).len() ==> 1 <= (#[trigger] numbered_commands(
                lines,
            )[k]).0 <= lines.len(),
        forall|j: int, k: int|
            0 <= j < k < numbered_commands(lines).len() ==> (#[trigger] numbered_commands(
                lines,
            )[j]).0 <= (#[trigger] numbered_commands(lines)[k]).0,
    decreases lines.len(),
{
    if lines.len() > 0 {
        let p = lines.drop_last();
        law_commands_line_by_line(p);
        let a = numbered_commands(p);
        let b = line_commands(lines.last()).map_values(|c: Seq<char>| (lines.len() as int, c));
        assert(command_texts(a + b) =~= command_texts(a) + line_commands(lines.last()));
        let r = a + b;
        assert forall|k: int| 0 <= k < r.len() implies 1 <= (#[trigger] r[k]).0 <= lines.len() by {
            if k < a.len() {
                assert(r[k] == a[k]);
            } else {
                assert(r[k] == b[k - a.len()]);
            }
        }
        assert forall|j: int, k: int| 0 <= j < k < r.len() implies (#[trigger] r[j]).0 <= (
        #[trigger] r[k]).0 by {
            if k < a.len() {
                assert(r[j] == a[j]);
                assert(r[k] == a[k]);
            } else if j < a.len() {
                assert(r[j] == a[j]);
                assert(r[k] == b[k - a.len()]);
            } else {
                assert(r[j] == b[j - a.len()]);
                assert(r[k] == b[k - a.len()]);
            }
        }
    }
}

/// A line that is blank, or holds only a comment, gives no command.
pub proof fn law_blank_and_comment_lines_give_nothing(line: Seq<char>)
    requires
        before_comment(trimmed(line)).len() == 0,
    ensures
        line_commands(line).len() == 0,
{
}

/// A command of a command file, and the number of its line.
#[derive(Debug, Clone, PartialEq, Eq)]
pub struct NumberedCommand {
    pub line: usize,
    pub text: String,
}

fn whitespace(c: char) -> (res: bool)
    ensures
        res == is_whitespace(c),
{
    ('\u{9}' <= c && c <= '\u{d}') || c == ' ' || c == '\u{85}' || c == '\u{a0}' || c == '\u{1680}'
        || ('\u{2000}' <= c && c <= '\u{200a}') || c == '\u{2028}' || c == '\u{2029}' || c
        == '\u{202f}' || c == '\u{205f}' || c == '\u{3000}'
}

proof fn lemma_trim_start_skip(s: Seq<char>, i: int)
    requires
        0 <= i < s.len(),
        is_whitespace(s[i]),
    ensures
        trim_start_ws(s.subrange(i, s.len() as int)) == trim_start_ws(s.subrange(i + 1, s.len() as int)),
{
    assert(s.subrange(i, s.len() as int).drop_first() =~= s.subrange(i + 1, s.len() as int));
}

proof fn lemma_trim_end_skip(s: Seq<char>, i: int, j: int)
    requires
        0 <= i < j <= s.len(),
        is_whitespace(s[j - 1]),
    ensures
        trim_end_ws(s.subrange(i, j)) == trim_end_ws(s.subrange(i, j - 1)),
{
    assert(s.subrange(i, j).drop_last() =~= s.subrange(i, j - 1));
}

/// `s` without leading and trailing white space.
pub fn trim_chars(s: &[char]) -> (res: Vec<char>)
    ensures
        res@ == trimmed(s@),
{
    let n = s.len();
    let mut start: usize = 0;
    assert(s@.subrange(0, n as int) =~= s@);
    while start < n && whitespace(s[start])
        invariant
            start <= n == s@.len(),
            trim_start_ws(s@) == trim_start_ws(s@.subrange(start as int, n as int)),
        decreases n - start,
    {
        proof {
            lemma_trim_start_skip(s@, start as int);
        }
        start = start + 1;
    }
    assert(s@.subrange(0, n as int) =~= s@);
    let ghost rest = s@.subrange(start as int, n as int);
    assert(trim_start_ws(rest) == rest) by {
        if rest.len() > 0 {
            assert(rest[0] == s@[start as int]);
        }
    }
    let mut end: usize = n;
    while end > start && whitespace(s[end - 1])
        invariant
            start <= end <= n == s@.len(),
            rest == s@.subrange(start as int, n as int),
            trim_end_ws(rest) == trim_end_ws(s@.subrange(start as int, end as int)),
        decreases end - start,
    {
        proof {
            lemma_trim_end_skip(s@, start as int, end as int);
        }
        end = end - 1;
    }
    let ghost kept = s@.subrange(start as int, end as int);
    assert(trim_end_ws(kept) == kept) by {
        if kept.len() > 0 {
            assert(kept.last() == s@[end - 1]);
        }
    }
    let mut out: Vec<char> = Vec::new();
    push_range(&mut out, s, start, end);
    assert(out@ =~= kept);
    out
}

/// The commands of one line of a command file, trimmed.
pub fn commands_of_line(line: &str) -> (res: Vec<Vec<char>>)
    ensures
        res@.map_values(|c: Vec<char>| c@) == line_commands(line@),
{
    let chars = chars_of(line);
    let t = trim_chars(chars.as_slice());
    let content: Vec<char> = match find_char(t.as_slice(), '#') {
        Some(i) => {
            let mut c: Vec<char> = Vec::new();
            push_range(&mut c, t.as_slice(), 0, i);
            assert(c@ =~= t@.take(i as int));
            c
        },
        None => t,
    };
    let mut res: Vec<Vec<char>> = Vec::new();
    if content.len() == 0 {
        assert(res@.map_values(|c: Vec<char>| c@) =~= Seq::<Seq<char>>::empty());
        return res;
    }
    let mut cur: Vec<char> = Vec::new();
    let mut i: usize = 0;
    while i < content.len()
        invariant
            i <= content@.len(),
            content@.len() > 0,
            split_pieces(content@.subrange(0, i as int), ';').len() >= 1,
            res@.map_values(|c: Vec<char>| c@) == split_pieces(content@.subrange(0, i as int), ';').drop_last().map_values(
                |c: Seq<char>| trimmed(c),
            ),
            cur@ == split_pieces(content@.subrange(0, i as int), ';').last(),
        decreases content@.len() - i,
    {
        let ghost pre = content@.subrange(0, i as int);
        let ghost p = split_pieces(pre, ';');
        assert(content@.subrange(0, i + 1).drop_last() =~= pre);
        let c = content[i];
        if c == ';' {
            let piece = trim_chars(cur.as_slice());
            let ghost old_res = res@;
            res.push(piece);
            assert(res@.map_values(|c: Vec<char>| c@) =~= old_res.map_values(|c: Vec<char>| c@).push(
                trimmed(cur@),
            ));
            assert(p.push(Seq::empty()).drop_last() =~= p);
            assert(p.drop_last().map_values(|c: Seq<char>| trimmed(c)).push(trimmed(p.last()))
                =~= p.map_values(|c: Seq<char>| trimmed(c)));
            cur = Vec::new();
        } else {
            cur.push(c);
            assert(p.update(p.len() - 1, p.last().push(c)).drop_last() =~= p.drop_last());
        }
        i = i + 1;
    }
    assert(content@.subrange(0, content@.len() as int) =~= content@);
    let ghost p = split_pieces(content@, ';');
    let last = trim_chars(cur.as_slice());
    let ghost old_res = res@;
    res.push(last);
    assert(res@.map_values(|c: Vec<char>| c@) =~= old_res.map_values(|c: Vec<char>| c@).push(
        trimmed(cur@),
    ));
    assert(p.drop_last().map_values(|c: Seq<char>| trimmed(c)).push(trimmed(p.last()))
        =~= p.map_values(|c: Seq<char>| trimmed(c)));
    res
}

/// The commands of the lines of a command file, each with the number of its line.
pub fn batch_command_lines(lines: &Vec<String>) -> (res: Vec<NumberedCommand>)
    ensures
        res@.len() == numbered_commands(lines@.map_values(|l: String| l@)).len(),
        forall|k: int|
            0 <= k < res@.len() ==> (#[trigger] res@[k]).line == numbered_commands(
                lines@.map_values(|l: String| l@),
            )[k].0 && res@[k].text@ == numbered_commands(lines@.map_values(|l: String| l@))[k].1,
{
    let ghost all = lines@.map_values(|l: String| l@);
    let mut res: Vec<NumberedCommand> = Vec::new();
    let mut i: usize = 0;
    while i < lines.len()
        invariant
            i <= lines@.len(),
            all == lines@.map_values(|l: String| l@),
            res@.len() == numbered_commands(all.take(i as int)).len(),
            forall|k: int|
                0 <= k < res@.len() ==> (#[trigger] res@[k]).line == numbered_commands(
                    all.take(i as int),
                )[k].0 && res@[k].text@ == numbered_commands(all.take(i as int))[k].1,
        decreases lines@.len() - i,
    {
        let ghost before = numbered_commands(all.take(i as int));
        assert(all.take(i + 1).drop_last() =~= all.take(i as int));
        assert(all.take(i + 1).last() == lines@[i as int]@);
        let cmds = commands_of_line(lines[i].as_str());
        let line_no = i + 1;
        let ghost added = line_commands(lines@[i as int]@).map_values(
            |c: Seq<char>| ((i + 1) as int, c),
        );
        assert(numbered_commands(all.take(i + 1)) == before + added);
        let mut j: usize = 0;
        let ghost base = res@.len();
        while j < cmds.len()
            invariant
                j <= cmds@.len(),
                i < lines@.len(),
                line_no == i + 1,
                added == line_commands(lines@[i as int]@).map_values(
                    |c: Seq<char>| ((i + 1) as int, c),
                ),
                base == before.len(),
                cmds@.map_values(|c: Vec<char>| c@) == line_commands(lines@[i as int]@),
                res@.len() == base + j,
                forall|k: int|
                    0 <= k < res@.len() ==> (#[trigger] res@[k]).line == (before + added)[k].0
                        && res@[k].text@ == (before + added)[k].1,
            decreases cmds@.len() - j,
        {
            let text = string_of(cmds[j].as_slice());
            assert(cmds@.map_values(|c: Vec<char>| c@)[j as int] == cmds@[j as int]@);
            assert((before + added)[base + j] == added[j as int]);
            let ghost old_res = res@;
            res.push(NumberedCommand { line: line_no, text });
            assert forall|k: int| 0 <= k < res@.len() implies (#[trigger] res@[k]).line == (before
                + added)[k].0 && res@[k].text@ == (before + added)[k].1 by {
                if k < old_res.len() {
                    assert(res@[k] == old_res[k]);
                }
            }
            j = j + 1;
        }
        i = i + 1;
    }
    assert(all.take(lines@.len() as int) =~= all);
    res
}

/// The command that runs the commands of another file in its place.
pub const RUN_COMMAND_FILE: &'static str = "run_command_file ";

/// Whether `c` is ASCII white space, as `str::split_ascii_whitespace` splits at it.
pub open spec fn is_ascii_ws(c: char) -> bool {
    c == ' ' || c == '\t' || c == '\n' || c == '\u{c}' || c == '\r'
}

/// `s` without its leading ASCII white space.
pub open spec fn skip_ascii_ws(s: Seq<char>) -> Seq<char>
    decreases s.len(),
{
    if s.len() > 0 && is_ascii_ws(s[0]) {
        skip_ascii_ws(s.drop_first())
    } else {
        s
    }
}

/// The first word of `s`: its characters up to the first ASCII white space.
pub open spec fn first_word(s: Seq<char>) -> Seq<char>
    decreases s.len(),
{
    if s.len() == 0 || is_ascii_ws(s[0]) {
        Seq::empty()
    } else {
        seq![s[0]] + first_word(s.drop_first())
    }
}

/// What a command of a command file asks for.
#[derive(Debug, Clone, PartialEq, Eq)]
pub enum BatchCommandKind {
    /// A command for the command parser.
    Parse,
    /// Run the commands of the file at the path given, if one is given.
    RunCommandFile(Option<String>),
}

/// Whether `command` runs another command file: it starts with `run_command_file `.
pub open spec fn runs_command_file(command: Seq<char>) -> bool {
    command.len() >= RUN_COMMAND_FILE@.len() && command.take(RUN_COMMAND_FILE@.len() as int)
        == RUN_COMMAND_FILE@
}

/// The path given to `run_command_file`: the second word of the command.
pub open spec fn command_file_path(command: Seq<char>) -> Option<Seq<char>> {
    let rest = skip_ascii_ws(skip_ascii_ws(command).skip(first_word(skip_ascii_ws(command)).len() as int));
    if rest.len() == 0 {
        None
    } else {
        Some(first_word(rest))
    }
}

/// Skips ASCII white space in `s` from `i` on.
fn skip_ws_from(s: &[char], i: usize) -> (j: usize)
    requires
        i <= s@.len(),
    ensures
        i <= j <= s@.len(),
        skip_ascii_ws(s@.skip(i as int)) == s@.skip(j as int),
{
    let mut j = i;
    while j < s.len() && (s[j] == ' ' || s[j] == '\t' || s[j] == '\n' || s[j] == '\u{c}' || s[j]
        == '\r')
        invariant
            i <= j <= s@.len(),
            skip_ascii_ws(s@.skip(i as int)) == skip_ascii_ws(s@.skip(j as int)),
        decreases s@.len() - j,
    {
        assert(s@.skip(j as int).drop_first() =~= s@.skip(j + 1));
        j = j + 1;
    }
    assert(skip_ascii_ws(s@.skip(j as int)) == s@.skip(j as int)) by {
        if j < s@.len() {
            assert(s@.skip(j as int)[0] == s@[j as int]);
        }
    }
    j
}

/// The end of the word of `s` that starts at `i`.
fn word_end(s: &[char], i: usize) -> (j: usize)
    requires
        i <= s@.len(),
    ensures
        i <= j <= s@.len(),
        first_word(s@.skip(i as int)) == s@.subrange(i as int, j as int),
{
    let mut k = i;
    while k < s.len() && !(s[k] == ' ' || s[k] == '\t' || s[k] == '\n' || s[k] == '\u{c}' || s[k]
        == '\r')
        invariant
            i <= k <= s@.len(),
            first_word(s@.skip(i as int)) == s@.subrange(i as int, k as int) + first_word(
                s@.skip(k as int),
            ),
        decreases s@.len() - k,
    {
        assert(s@.skip(k as int).drop_first() =~= s@.skip(k + 1));
        assert(s@.subrange(i as int, k + 1) =~= s@.subrange(i as int, k as int) + seq![s@[k as int]]);
        k = k + 1;
    }
    assert(first_word(s@.skip(k as int)) =~= Seq::<char>::empty()) by {
        if k < s@.len() {
            assert(s@.skip(k as int)[0] == s@[k as int]);
        }
    }
    assert(first_word(s@.skip(i as int)) =~= s@.subrange(i as int, k as int));
    k
}

/// What a command of a command file asks for: running another file, with its path, or
/// parsing.
pub fn classify_batch_command(command: &str) -> (res: BatchCommandKind)
    ensures
        !runs_command_file(command@) ==> res == BatchCommandKind::Parse,
        runs_command_file(command@) ==> (res matches BatchCommandKind::RunCommandFile(p) && match p {
            Some(path) => command_file_path(command@) == Some(path@),
            None => command_file_path(command@) is None,
        }),
{
    let cs = chars_of(command);
    let prefix = chars_of(RUN_COMMAND_FILE);
    if cs.len() < prefix.len() {
        return BatchCommandKind::Parse;
    }
    let mut i: usize = 0;
    while i < prefix.len()
        invariant
            i <= prefix@.len() <= cs@.len(),
            cs@ == command@,
            prefix@ == RUN_COMMAND_FILE@,
            forall|k: int| 0 <= k < i ==> cs@[k] == prefix@[k],
        decreases prefix@.len() - i,
    {
        if cs[i] != prefix[i] {
            assert(cs@.take(prefix@.len() as int)[i as int] != prefix@[i as int]);
            return BatchCommandKind::Parse;
        }
        i = i + 1;
    }
    assert(cs@.take(prefix@.len() as int) =~= prefix@);
    let s = cs.as_slice();
    let a = skip_ws_from(s, 0);
    assert(s@.skip(0) =~= s@);
    let b = word_end(s, a);
    assert(skip_ascii_ws(s@).skip(first_word(skip_ascii_ws(s@)).len() as int) =~= s@.skip(b as int));
    let c = skip_ws_from(s, b);
    if c == s.len() {
        assert(s@.skip(c as int).len() == 0);
        BatchCommandKind::RunCommandFile(None)
    } else {
        let d = word_end(s, c);
        let mut word: Vec<char> = Vec::new();
        push_range(&mut word, s, c, d);
        BatchCommandKind::RunCommandFile(Some(string_of(&word)))
    }
}

/// The lines of `s`: each `\n` ends a line, a `\r` right before it is dropped, and a last line
/// without a `\n` is kept as it is. Returns the finished lines and the line under way.
pub open spec fn scan_lines(s: Seq<char>) -> (Seq<Seq<char>>, Seq<char>)
    decreases s.len(),
{
    if s.len() == 0 {
        (Seq::empty(), Seq::empty())
    } else {
        let (done, cur) = scan_lines(s.drop_last());
        if s.last() == '\n' {
            (done.push(strip_carriage_return(cur)), Seq::empty())
        } else {
            (done, cur.push(s.last()))
        }
    }
}

/// `line` without one trailing `\r`.
pub open spec fn strip_carriage_return(line: Seq<char>) -> Seq<char> {
    if line.len() > 0 && line.last() == '\r' {
        line.drop_last()
    } else {
        line
    }
}

/// The lines of a text, as `str::lines` gives them.
pub open spec fn text_lines(s: Seq<char>) -> Seq<Seq<char>> {
    let (done, cur) = scan_lines(s);
    if cur.len() > 0 {
        done.push(cur)
    } else {
        done
    }
}

/// The lines of `text`.
pub fn lines_of(text: &str) -> (res: Vec<String>)
    ensures
        res@.map_values(|l: String| l@) == text_lines(text@),
{
    let chars = chars_of(text);
    let mut res: Vec<String> = Vec::new();
    let mut cur: Vec<char> = Vec::new();
    let mut i: usize = 0;
    while i < chars.len()
        invariant
            i <= chars.len(),
            chars@ == text@,
            res@.map_values(|l: String| l@) == scan_lines(chars@.subrange(0, i as int)).0,
            cur@ == scan_lines(chars@.subrange(0, i as int)).1,
        decreases chars.len() - i,
    {
        let ghost before = chars@.subrange(0, i as int);
        assert(chars@.subrange(0, i + 1).drop_last() =~= before);
        let c = chars[i];
        if c == '\n' {
            let n = cur.len();
            if n > 0 && cur[n - 1] == '\r' {
                cur.pop();
            }
            let line = string_of(&cur);
            let ghost old_res = res@;
            res.push(line);
            assert(res@.map_values(|l: String| l@) =~= old_res.map_values(|l: String| l@).push(
                line@,
            ));
            cur = Vec::new();
        } else {
            cur.push(c);
        }
        i = i + 1;
    }
    assert(chars@.subrange(0, i as int) =~= chars@);
    if cur.len() > 0 {
        let ghost old_res = res@;
        let last = string_of(&cur);
        res.push(last);
        assert(res@.map_values(|l: String| l@) =~= old_res.map_values(|l: String| l@).push(
            last@,
        ));
    }
    res
}

/// The lines of a command file given as bytes; no lines when the bytes are not UTF-8.
pub fn read_command_bytes(bytes: Vec<u8>) -> (res: Vec<String>)
    ensures
        valid_utf8(bytes@) ==> res@.map_values(|l: String| l@) == text_lines(decode_utf8(bytes@)),
        !valid_utf8(bytes@) ==> res@.len() == 0,
{
    match utf8_text(bytes) {
        Some(text) => lines_of(text.as_str()),
        None => Vec::new(),
    }
}

/// One step of loading a command file, in the order the steps are to be taken.
#[derive(Debug, Clone, PartialEq, Eq)]
pub enum BatchStep {
    /// Parse the command `text` of line `line`, and keep its message; report the line when
    /// it does not parse.
    Parse { line: usize, text: String },
    /// Queue the messages kept so far.
    QueueParsed,
    /// Load the command file at the path given, here: its messages are queued after those
    /// of the commands before and ahead of those of the commands after.
    RunCommandFile(String),
    /// Report a `run_command_file` without a path on line `line`.
    MissingPath(usize),
}

/// A step of loading a command file, as the proofs see it.
pub enum BatchStepView {
    Parse(int, Seq<char>),
    QueueParsed,
    RunCommandFile(Seq<char>),
    MissingPath(int),
}

impl View for BatchStep {
    type V = BatchStepView;

    open spec fn view(&self) -> BatchStepView {
        match self {
            BatchStep::Parse { line, text } => BatchStepView::Parse(*line as int, text@),
            BatchStep::QueueParsed => BatchStepView::QueueParsed,
            BatchStep::RunCommandFile(path) => BatchStepView::RunCommandFile(path@),
            BatchStep::MissingPath(line) => BatchStepView::MissingPath(*line as int),
        }
    }
}

/// The steps for one command: a command for the parser is parsed; a `run_command_file`
/// with a path queues what was parsed before it and then loads the file; one without a path
/// is reported.
pub open spec fn command_steps(cmd: (int, Seq<char>)) -> Seq<BatchStepView> {
    if runs_command_file(cmd.1) {
        match command_file_path(cmd.1) {
            Some(path) => seq![BatchStepView::QueueParsed, BatchStepView::RunCommandFile(path)],
            None => seq![BatchStepView::MissingPath(cmd.0)],
        }
    } else {
        seq![BatchStepView::Parse(cmd.0, cmd.1)]
    }
}

/// The steps for the commands `cmds`, in order.
pub open spec fn commands_steps(cmds: Seq<(int, Seq<char>)>) -> Seq<BatchStepView>
    decreases cmds.len(),
{
    if cmds.len() == 0 {
        Seq::empty()
    } else {
        commands_steps(cmds.drop_last()) + command_steps(cmds.last())
    }
}

/// The plan for loading a command file with the lines `lines`: the steps of its commands,
/// and then the queueing of what was parsed after the last of them.
pub open spec fn batch_plan(lines: Seq<Seq<char>>) -> Seq<BatchStepView> {
    commands_steps(numbered_commands(lines)).push(BatchStepView::QueueParsed)
}

/// The steps of loading a command file with the lines `commands`. The messages of a file
/// named by `run_command_file` take the place of that command: what was parsed before it is
/// queued first, then the file is loaded, and what follows is queued after it.
pub fn plan_batch_commands(commands: &Vec<String>) -> (res: Vec<BatchStep>)
    ensures
        res@.map_values(|s: BatchStep| s@) == batch_plan(commands@.map_values(|l: String| l@)),
{
    let cmds = batch_command_lines(commands);
    let ghost numbered = numbered_commands(commands@.map_values(|l: String| l@));
    let mut res: Vec<BatchStep> = Vec::new();
    let mut k: usize = 0;
    assert(numbered.take(0) =~= Seq::<(int, Seq<char>)>::empty());
    while k < cmds.len()
        invariant
            k <= cmds@.len(),
            cmds@.len() == numbered.len(),
            numbered == numbered_commands(commands@.map_values(|l: String| l@)),
            forall|i: int|
                0 <= i < cmds@.len() ==> (#[trigger] cmds@[i]).line == numbered[i].0
                    && cmds@[i].text@ == numbered[i].1,
            res@.map_values(|s: BatchStep| s@) == commands_steps(numbered.take(k as int)),
        decreases cmds@.len() - k,
    {
        let ghost before = res@.map_values(|s: BatchStep| s@);
        assert(numbered.take(k + 1).drop_last() =~= numbered.take(k as int));
        assert(numbered.take(k + 1).last() == numbered[k as int]);
        assert(cmds@[k as int].line == numbered[k as int].0);
        let line = cmds[k].line;
        let text = cmds[k].text.clone();
        match classify_batch_command(text.as_str()) {
            BatchCommandKind::RunCommandFile(Some(path)) => {
                res.push(BatchStep::QueueParsed);
                res.push(BatchStep::RunCommandFile(path));
            },
            BatchCommandKind::RunCommandFile(None) => {
                res.push(BatchStep::MissingPath(line));
            },
            BatchCommandKind::Parse => {
                res.push(BatchStep::Parse { line, text });
            },
        }
        assert(res@.map_values(|s: BatchStep| s@) =~= before + command_steps(numbered[k as int]));
        k = k + 1;
    }
    assert(numbered.take(k as int) =~= numbered);
    let ghost before = res@.map_values(|s: BatchStep| s@);
    res.push(BatchStep::QueueParsed);
    assert(res@.map_values(|s: BatchStep| s@) =~= before.push(BatchStepView::QueueParsed));
    res
}

/// Every loading of a nested file comes right after the queueing of what was parsed before.
pub open spec fn files_load_in_place(steps: Seq<BatchStepView>) -> bool {
    forall|i: int|
        0 <= i < steps.len() && (#[trigger] steps[i]) is RunCommandFile ==> i > 0 && steps[i
            - 1] is QueueParsed
}

proof fn lemma_commands_steps_in_place(cmds: Seq<(int, Seq<char>)>)
    ensures
        files_load_in_place(commands_steps(cmds)),
    decreases cmds.len(),
{
    if cmds.len() > 0 {
        lemma_commands_steps_in_place(cmds.drop_last());
        let prev = commands_steps(cmds.drop_last());
        let last = command_steps(cmds.last());
        let all = commands_steps(cmds);
        assert(all == prev + last);
        assert forall|i: int| 0 <= i < all.len() && (#[trigger] all[i]) is RunCommandFile implies i
            > 0 && all[i - 1] is QueueParsed by {
            if i < prev.len() {
                assert(all[i] == prev[i]);
                assert(all[i - 1] == prev[i - 1]);
            } else {
                assert(all[i] == last[i - prev.len()]);
                assert(all[i - 1] == if i - 1 < prev.len() { prev[i - 1] } else { last[i - 1 - prev.len()] });
            }
        }
    }
}

/// A nested command file is loaded in the place of its `run_command_file` command: the plan
/// queues the messages of the commands before it right before loading it, and queues those
/// of the commands after it only later.
pub proof fn law_nested_file_loaded_in_place(lines: Seq<Seq<char>>)
    ensures
        files_load_in_place(batch_plan(lines)),
        batch_plan(lines).last() is QueueParsed,
{
    let steps = commands_steps(numbered_commands(lines));
    lemma_commands_steps_in_place(numbered_commands(lines));
    let plan = batch_plan(lines);
    assert forall|i: int| 0 <= i < plan.len() && (#[trigger] plan[i]) is RunCommandFile implies i
        > 0 && plan[i - 1] is QueueParsed by {
        assert(plan[i] == steps[i]);
        assert(plan[i - 1] == steps[i - 1]);
    }
}

/// The messages that the parser `p` gives for `cmds`, in order: a command that runs another
/// file gives none here (its file is loaded by a step of its own), nor does one that does not
/// parse.
pub open spec fn parsed_messages(cmds: Seq<Seq<char>>, p: spec_fn(Seq<char>) -> Option<Message>) -> Seq<
    Message,
>
    decreases cmds.len(),
{
    if cmds.len() == 0 {
        Seq::empty()
    } else {
        let prev = parsed_messages(cmds.drop_last(), p);
        let c = cmds.last();
        if runs_command_file(c) {
            prev
        } else {
            match p(c) {
                Some(m) => prev.push(m),
                None => prev,
            }
        }
    }
}

/// Whether the parser `parse` gives, for every text, the message that `p` gives for it.
pub open spec fn parses_as<P: Fn(String) -> Option<Message>>(
    parse: P,
    p: spec_fn(Seq<char>) -> Option<Message>,
) -> bool {
    forall|t: String, r: Option<Message>| call_ensures(parse, (t,), r) ==> r == p(t@)
}

/// The messages of the commands of a command file, as `parse` parses them, in order. The
/// lines are trimmed and cut at `#`, and split at `;`; a command that runs another file gives
/// no message here, nor does one that does not parse.
pub fn parse_batch_commands<P: Fn(String) -> Option<Message>>(
    commands: &Vec<String>,
    parse: P,
) -> (res: Vec<Message>)
    requires
        forall|t: String| call_requires(parse, (t,)),
    ensures
        forall|p: spec_fn(Seq<char>) -> Option<Message>|
            parses_as(parse, p) ==> res@ == parsed_messages(
                commands_of_lines(commands@.map_values(|l: String| l@)),
                p,
            ),
{
    let cmds = batch_command_lines(commands);
    let ghost lines = commands@.map_values(|l: String| l@);
    let ghost texts = command_texts(numbered_commands(lines));
    proof {
        law_commands_line_by_line(lines);
    }
    let mut res: Vec<Message> = Vec::new();
    let mut k: usize = 0;
    assert(texts.take(0) =~= Seq::<Seq<char>>::empty());
    while k < cmds.len()
        invariant
            k <= cmds@.len(),
            cmds@.len() == texts.len(),
            texts == command_texts(numbered_commands(lines)),
            forall|i: int| 0 <= i < cmds@.len() ==> (#[trigger] cmds@[i]).text@ == texts[i],
            forall|t: String| call_requires(parse, (t,)),
            forall|p: spec_fn(Seq<char>) -> Option<Message>|
                parses_as(parse, p) ==> res@ == parsed_messages(texts.take(k as int), p),
        decreases cmds@.len() - k,
    {
        assert(cmds@[k as int].text@ == numbered_commands(lines)[k as int].1);
        assert(texts.take(k + 1).drop_last() =~= texts.take(k as int));
        assert(texts.take(k + 1).last() == texts[k as int]);
        let ghost before = res@;
        let text = cmds[k].text.clone();
        match classify_batch_command(text.as_str()) {
            BatchCommandKind::Parse => {
                let r = parse(text);
                match r {
                    Some(m) => {
                        res.push(m);
                    },
                    None => {},
                }
                assert forall|p: spec_fn(Seq<char>) -> Option<Message>| parses_as(
                    parse,
                    p,
                ) implies res@ == parsed_messages(texts.take(k + 1), p) by {
                    assert(r == p(texts[k as int]));
                }
            },
            BatchCommandKind::RunCommandFile(_) => {},
        }
        k = k + 1;
    }
    assert(texts.take(k as int) =~= texts);
    res
}

/// What a command list gives is what its two parts give, one after the other.
proof fn lemma_parsed_messages_split(
    a: Seq<Seq<char>>,
    b: Seq<Seq<char>>,
    p: spec_fn(Seq<char>) -> Option<Message>,
)
    ensures
        parsed_messages(a + b, p) == parsed_messages(a, p) + parsed_messages(b, p),
    decreases b.len(),
{
    if b.len() == 0 {
        assert(a + b =~= a);
        assert(parsed_messages(a, p) + parsed_messages(b, p) =~= parsed_messages(a, p));
    } else {
        lemma_parsed_messages_split(a, b.drop_last(), p);
        assert((a + b).drop_last() =~= a + b.drop_last());
        assert((a + b).last() == b.last());
        let x = parsed_messages(a, p);
        let y = parsed_messages(b.drop_last(), p);
        match p(b.last()) {
            Some(m) => {
                assert(x + y.push(m) =~= (x + y).push(m));
            },
            None => {},
        }
    }
}

/// The commands of the lines of `a` and then of `b` are those of `a` and then those of `b`.
proof fn lemma_commands_of_lines_split(a: Seq<Seq<char>>, b: Seq<Seq<char>>)
    ensures
        commands_of_lines(a + b) == commands_of_lines(a) + commands_of_lines(b),
    decreases b.len(),
{
    if b.len() == 0 {
        assert(a + b =~= a);
        assert(commands_of_lines(a) + commands_of_lines(b) =~= commands_of_lines(a));
    } else {
        lemma_commands_of_lines_split(a, b.drop_last());
        assert((a + b).drop_last() =~= a + b.drop_last());
        assert((a + b).last() == b.last());
        assert(commands_of_lines(a) + (commands_of_lines(b.drop_last()) + line_commands(b.last()))
            =~= (commands_of_lines(a) + commands_of_lines(b.drop_last())) + line_commands(
            b.last(),
        ));
    }
}

/// Parsing a command file goes line by line: the messages of a file are those of its first
/// lines and then those of the rest, and a blank or comment-only line adds none; so a file
/// gives the same messages however its commands are spread over lines and `;`.
pub proof fn law_parsed_messages_line_by_line(
    a: Seq<Seq<char>>,
    b: Seq<Seq<char>>,
    p: spec_fn(Seq<char>) -> Option<Message>,
)
    ensures
        parsed_messages(commands_of_lines(a + b), p) == parsed_messages(commands_of_lines(a), p)
            + parsed_messages(commands_of_lines(b), p),
        forall|line: Seq<char>|
            before_comment(trimmed(line)).len() == 0 ==> parsed_messages(
                #[trigger] commands_of_lines(a.push(line)),
                p,
            ) == parsed_messages(commands_of_lines(a), p),
{
    lemma_commands_of_lines_split(a, b);
    lemma_parsed_messages_split(commands_of_lines(a), commands_of_lines(b), p);
    assert forall|line: Seq<char>|
        before_comment(trimmed(line)).len() == 0 implies parsed_messages(
        #[trigger] commands_of_lines(a.push(line)),
        p,
    ) == parsed_messages(commands_of_lines(a), p) by {
        assert(a.push(line).drop_last() =~= a);
        assert(line_commands(line) =~= Seq::<Seq<char>>::empty());
        assert(commands_of_lines(a.push(line)) =~= commands_of_lines(a));
    }
}

} // verus!
