//! Data types used for filtering the console.

use std::sync::Arc;

use regex::Regex;
use tokio::sync::broadcast;
use vstd::prelude::*;

use crate::external;
use crate::minecraft::AttendantRequest;
use crate::ready::Signal;
use crate::shared;

verus! {

// === Output filters ===

/// Filter output received by the client.
#[derive(Debug)]
pub enum FilterOutput {
    /// A line matched by the output filter.
    Line(String),
    /// The filter has expired.
    Expired,
}

impl View for FilterOutput {
    type V = Option<Seq<char>>;

    /// The matched line, if any.
    open spec fn view(&self) -> Option<Seq<char>> {
        match self {
            FilterOutput::Line(line) => Some(line@),
            FilterOutput::Expired => None,
        }
    }
}

impl Clone for FilterOutput {
    fn clone(&self) -> (output: Self)
        ensures
            output@ == self@,
    {
        match self {
            FilterOutput::Line(line) => FilterOutput::Line(line.clone()),
            FilterOutput::Expired => FilterOutput::Expired,
        }
    }
}

impl FilterOutput {
    /// Consumes self and returns the matched line if any.
    pub fn take_line(self) -> (line: Option<String>)
        ensures
            line == match self {
                FilterOutput::Line(line) => Some(line),
                FilterOutput::Expired => None,
            },
    {
        match self {
            FilterOutput::Line(line) => Some(line),
            FilterOutput::Expired => None,
        }
    }
}

/// Passes the lines of the console that match a regular expression on to a client.
pub struct OutputFilter {
    pub regex: Regex,
    pub chan: broadcast::Sender<FilterOutput>,
    /// How many lines can match the regex. None means unrestricted.
    pub count: Option<i32>,
    /// How many lines can not match. None means unrestricted.
    pub fail: Option<i32>,
    /// Should chat lines be skipped?
    pub ignore_chat: bool,
}

/// What to do with an output filter next.
#[derive(Clone, Copy, Debug, PartialEq, Eq, Structural)]
pub enum Verdict {
    /// Keep checking it.
    Keep,
    /// Send it the line.
    SendLine,
    /// Tell the client that it has expired, and drop it.
    Expire,
    /// Drop it.
    Drop,
}

/// A limit after one more line was counted against it.
pub open spec fn counted(limit: Option<i32>) -> Option<i32> {
    match limit {
        Some(n) => Some((n - 1) as i32),
        None => None,
    }
}

/// The limit is reached once one more line is counted against it.
pub open spec fn exhausts(limit: Option<i32>) -> bool {
    limit matches Some(n) && n - 1 <= 0
}

/// `outputs` were handed to a channel one after the other, accepted or not.
pub open spec fn handed_over(
    before: Seq<(Option<Seq<char>>, bool)>,
    outputs: Seq<Option<Seq<char>>>,
    after: Seq<(Option<Seq<char>>, bool)>,
) -> bool {
    &&& after.len() == before.len() + outputs.len()
    &&& after.take(before.len() as int) == before
    &&& forall|i: int|
        before.len() <= i < after.len() ==> (#[trigger] after[i]).0 == outputs[i - before.len()]
}

impl OutputFilter {
    /// Its limits can be counted down.
    pub open spec fn wf(self) -> bool {
        &&& self.count matches Some(n) ==> n > i32::MIN
        &&& self.fail matches Some(n) ==> n > i32::MIN
    }

    /// The outputs that were handed to its client's channel, oldest first, each with whether the
    /// channel accepted it.
    pub open spec fn offers(self) -> Seq<(Option<Seq<char>>, bool)> {
        external::broadcast_offers(self.chan)
    }

    /// Its client gets its output on this receiver.
    pub open spec fn feeds(self, rx: broadcast::Receiver<FilterOutput>) -> bool {
        external::broadcast_connects(self.chan, rx)
    }

    /// What it does is the same as what `other` does, limits aside.
    pub open spec fn same_filter(self, other: OutputFilter) -> bool {
        &&& self.regex == other.regex
        &&& self.ignore_chat == other.ignore_chat
        &&& external::broadcast_capacity(self.chan) == external::broadcast_capacity(other.chan)
        &&& forall|rx: broadcast::Receiver<FilterOutput>| #[trigger]
            self.feeds(rx) == other.feeds(rx)
    }

    /// What one check does: `before` and `after` are the filter, `matched` says whether the
    /// message matches its regex, `keep` is the answer.
    pub open spec fn checked(
        before: OutputFilter,
        message: Seq<char>,
        is_chat: bool,
        matched: bool,
        after: OutputFilter,
        keep: bool,
    ) -> bool {
        if is_chat && before.ignore_chat {
            keep && after == before
        } else if !matched {
            &&& after.count == before.count
            &&& after.fail == counted(before.fail)
            &&& keep == !exhausts(before.fail)
            &&& if keep {
                after.offers() == before.offers()
            } else {
                handed_over(before.offers(), seq![None], after.offers())
            }
        } else {
            let accepted = after.offers()[before.offers().len() as int].1;
            &&& after.fail == before.fail
            &&& after.count == if accepted {
                counted(before.count)
            } else {
                before.count
            }
            &&& keep == (accepted && !exhausts(before.count))
            &&& if accepted && !keep {
                handed_over(before.offers(), seq![Some(message), None], after.offers())
            } else {
                handed_over(before.offers(), seq![Some(message)], after.offers())
            }
        }
    }

    /// Creates a new output filter builder with the following defaults:
    /// - the filter never expires
    /// - the filter ignores chat
    /// - channel capacity is 16
    pub fn new(regex: Regex) -> (builder: OutputFilterBuilder)
        ensures
            builder == (OutputFilterBuilder {
                regex: regex,
                chan_capacity: 16,
                count: None,
                fail: None,
                ignore_chat: true,
            }),
    {
        OutputFilterBuilder {
            regex: regex,
            chan_capacity: 16,
            count: None,
            fail: None,
            ignore_chat: true,
        }
    }

    /// Checks if its limits can be counted down.
    pub fn can_count(&self) -> (can: bool)
        ensures
            can == self.wf(),
    {
        self.count != Some(i32::MIN) && self.fail != Some(i32::MIN)
    }

    /// Decides what becomes of a message, given whether it matches.
    pub fn judge(&mut self, matched: bool, is_chat: bool) -> (verdict: Verdict)
        requires
            old(self).wf(),
        ensures
            ({
                let skipped = is_chat && old(self).ignore_chat;
                &&& verdict == if skipped {
                    Verdict::Keep
                } else if matched {
                    Verdict::SendLine
                } else if exhausts(old(self).fail) {
                    Verdict::Expire
                } else {
                    Verdict::Keep
                }
                &&& final(self).fail == if skipped || matched {
                    old(self).fail
                } else {
                    counted(old(self).fail)
                }
                &&& *final(self) == (OutputFilter { fail: final(self).fail, ..*old(self) })
            }),
    {
        if is_chat && self.ignore_chat {
            return Verdict::Keep;
        }
        if matched {
            return Verdict::SendLine;
        }
        match self.fail {
            Some(tries) => {
                self.fail = Some(tries - 1);
                if tries - 1 <= 0 {
                    Verdict::Expire
                } else {
                    Verdict::Keep
                }
            },
            None => Verdict::Keep,
        }
    }

    /// Counts a matched line, given whether the client's channel accepted it.
    pub fn count_match(&mut self, accepted: bool) -> (verdict: Verdict)
        requires
            old(self).wf(),
        ensures
            verdict == if !accepted {
                Verdict::Drop
            } else if exhausts(old(self).count) {
                Verdict::Expire
            } else {
                Verdict::Keep
            },
            final(self).count == if accepted {
                counted(old(self).count)
            } else {
                old(self).count
            },
            *final(self) == (OutputFilter { count: final(self).count, ..*old(self) }),
    {
        if !accepted {
            return Verdict::Drop;
        }
        match self.count {
            Some(c) => {
                self.count = Some(c - 1);
                if c - 1 > 0 {
                    Verdict::Keep
                } else {
                    Verdict::Expire
                }
            },
            None => Verdict::Keep,
        }
    }

    /// Runs the filter against a message, and returns whether to keep checking it.
    /// This updates the match counts if there are any. If there are no listeners, the filter is
    /// dropped.
    pub fn check(&mut self, message: &str, is_chat: bool) -> (keep: bool)
        requires
            old(self).wf(),
        ensures
            OutputFilter::checked(
                *old(self),
                message@,
                is_chat,
                external::regex_is_match(old(self).regex, message@),
                *final(self),
                keep,
            ),
            final(self).same_filter(*old(self)),
            keep ==> final(self).wf(),
    {
        let ghost before = self.offers();
        let matched = external::is_match(&self.regex, message);
        let mut verdict = self.judge(matched, is_chat);
        if let Verdict::SendLine = verdict {
            let accepted = external::broadcast_send(
                &mut self.chan,
                FilterOutput::Line(message.to_owned()),
            );
            verdict = self.count_match(accepted);
        }
        let keep = match verdict {
            Verdict::Keep => true,
            Verdict::Expire => {
                let _ = external::broadcast_send(&mut self.chan, FilterOutput::Expired);
                false
            },
            _ => false,
        };
        assert(self.offers().take(before.len() as int) =~= before);
        keep
    }
}

/// A filter that ignores chat does nothing on a chat message.
pub proof fn ignored_chat_changes_nothing(
    before: OutputFilter,
    message: Seq<char>,
    matched: bool,
    after: OutputFilter,
    keep: bool,
)
    requires
        before.ignore_chat,
        OutputFilter::checked(before, message, true, matched, after, keep),
    ensures
        keep,
        after == before,
{
}

/// All limits can be counted down but the least number that there is.
pub proof fn limits_can_be_counted_down(filter: OutputFilter)
    ensures
        filter.wf() <==> filter.count != Some(i32::MIN) && filter.fail != Some(i32::MIN),
{
}

// === Output filters over many messages ===

/// The lines among what was handed to a channel, in their order.
pub open spec fn lines_among(offers: Seq<(Option<Seq<char>>, bool)>) -> Seq<Seq<char>>
    decreases offers.len(),
{
    if offers.len() == 0 {
        Seq::empty()
    } else {
        match offers.last().0 {
            Some(line) => lines_among(offers.drop_last()).push(line),
            None => lines_among(offers.drop_last()),
        }
    }
}

/// The lines among what a channel accepted, in their order.
pub open spec fn lines_accepted(offers: Seq<(Option<Seq<char>>, bool)>) -> Seq<Seq<char>>
    decreases offers.len(),
{
    if offers.len() == 0 {
        Seq::empty()
    } else {
        match offers.last() {
            (Some(line), true) => lines_accepted(offers.drop_last()).push(line),
            _ => lines_accepted(offers.drop_last()),
        }
    }
}

/// The lines as they are handed over and accepted.
pub open spec fn accepted_lines(lines: Seq<Seq<char>>) -> Seq<(Option<Seq<char>>, bool)> {
    Seq::new(lines.len(), |i: int| (Some(lines[i]), true))
}

impl OutputFilter {
    /// A message, with whether it is chat, that the filter passes on.
    pub open spec fn hits(self, message: (Seq<char>, bool)) -> bool {
        !(message.1 && self.ignore_chat) && external::regex_is_match(self.regex, message.0)
    }

    /// A message, with whether it is chat, that counts as one that does not match.
    pub open spec fn misses(self, message: (Seq<char>, bool)) -> bool {
        !(message.1 && self.ignore_chat) && !external::regex_is_match(self.regex, message.0)
    }

    /// The messages that the filter passes on, in their order.
    pub open spec fn hits_among(self, messages: Seq<(Seq<char>, bool)>) -> Seq<Seq<char>>
        decreases messages.len(),
    {
        if messages.len() == 0 {
            Seq::empty()
        } else if self.hits(messages.last()) {
            self.hits_among(messages.drop_last()).push(messages.last().0)
        } else {
            self.hits_among(messages.drop_last())
        }
    }

    /// How many of the messages count as such that do not match.
    pub open spec fn misses_among(self, messages: Seq<(Seq<char>, bool)>) -> nat
        decreases messages.len(),
    {
        if messages.len() == 0 {
            0
        } else if self.misses(messages.last()) {
            self.misses_among(messages.drop_last()) + 1
        } else {
            self.misses_among(messages.drop_last())
        }
    }

    /// A check of this filter against the message.
    pub open spec fn one_check(self, message: (Seq<char>, bool), after: Self, keep: bool) -> bool {
        &&& OutputFilter::checked(
            self,
            message.0,
            message.1,
            external::regex_is_match(self.regex, message.0),
            after,
            keep,
        )
        &&& after.same_filter(self)
    }
}

/// A filter is checked against one message after the other, for as long as it is kept: `filters`
/// are the filter before the first check and after each, `keeps` are the answers.
pub open spec fn are_checks(
    filters: Seq<OutputFilter>,
    messages: Seq<(Seq<char>, bool)>,
    keeps: Seq<bool>,
) -> bool {
    &&& filters.len() == messages.len() + 1
    &&& keeps.len() == messages.len()
    &&& filters[0].wf()
    &&& forall|i: int|
        0 <= i < messages.len() ==> filters[i].one_check(
            #[trigger] messages[i],
            filters[i + 1],
            keeps[i],
        )
    &&& forall|i: int| 0 <= i < messages.len() - 1 ==> #[trigger] keeps[i]
}

/// Everything that was handed over since `before` was accepted: somebody still listens.
pub open spec fn all_accepted(before: OutputFilter, after: OutputFilter) -> bool {
    forall|i: int|
        before.offers().len() <= i < after.offers().len() ==> (#[trigger] after.offers()[i]).1
}

/// A filter that was kept so far.
proof fn kept_so_far(filters: Seq<OutputFilter>, messages: Seq<(Seq<char>, bool)>, keeps: Seq<bool>)
    requires
        are_checks(filters, messages, keeps),
        forall|i: int| 0 <= i < keeps.len() ==> #[trigger] keeps[i],
    ensures
        ({
            let first = filters[0];
            let last = filters.last();
            let hits = first.hits_among(messages);
            let misses = first.misses_among(messages);
            &&& last.wf()
            &&& last.regex == first.regex
            &&& last.ignore_chat == first.ignore_chat
            &&& last.offers() == first.offers() + accepted_lines(hits)
            &&& match first.count {
                Some(n) => last.count == Some((n - hits.len()) as i32) && (hits.len() > 0
                    ==> hits.len() < n),
                None => last.count is None,
            }
            &&& match first.fail {
                Some(n) => last.fail == Some((n - misses) as i32) && (misses > 0 ==> misses < n),
                None => last.fail is None,
            }
        }),
    decreases messages.len(),
{
    let first = filters[0];
    let hits = first.hits_among(messages);
    if messages.len() == 0 {
        assert(first.offers() + accepted_lines(hits) =~= first.offers());
    } else {
        all_but_the_last(filters, messages, keeps);
        let ms = messages.drop_last();
        kept_so_far(filters.drop_last(), ms, keeps.drop_last());
        let before = filters[messages.len() - 1];
        let after = filters.last();
        let message = messages.last();
        let earlier = first.hits_among(ms);
        if first.hits(message) {
            assert(after.offers() =~= before.offers().push((Some(message.0), true)));
            assert(accepted_lines(hits) =~= accepted_lines(earlier).push((Some(message.0), true)));
            assert(after.offers() =~= first.offers() + accepted_lines(hits));
        }
    }
}

/// What the checks before the last one come to.
proof fn all_but_the_last(
    filters: Seq<OutputFilter>,
    messages: Seq<(Seq<char>, bool)>,
    keeps: Seq<bool>,
)
    requires
        are_checks(filters, messages, keeps),
        messages.len() > 0,
    ensures
        are_checks(filters.drop_last(), messages.drop_last(), keeps.drop_last()),
        forall|i: int| 0 <= i < keeps.len() - 1 ==> #[trigger] keeps.drop_last()[i],
        filters[messages.len() - 1].one_check(messages.last(), filters.last(), keeps.last()),
{
    let n = messages.len() - 1;
    let fs = filters.drop_last();
    let ms = messages.drop_last();
    let ks = keeps.drop_last();
    assert forall|i: int| 0 <= i < ms.len() implies fs[i].one_check(
        #[trigger] ms[i],
        fs[i + 1],
        ks[i],
    ) by {
        assert(messages[i] == ms[i]);
    }
    assert(filters[n].one_check(messages[n], filters[n + 1], keeps[n]));
    assert forall|i: int| 0 <= i < keeps.len() - 1 implies #[trigger] ks[i] by {
        assert(keeps[i]);
    }
}

/// The lines among one sequence of offers and then another.
proof fn lines_of_both(a: Seq<(Option<Seq<char>>, bool)>, lines: Seq<Seq<char>>)
    ensures
        lines_among(a + accepted_lines(lines)) == lines_among(a) + lines,
        lines_accepted(a + accepted_lines(lines)) == lines_accepted(a) + lines,
    decreases lines.len(),
{
    let both = a + accepted_lines(lines);
    if lines.len() == 0 {
        assert(both =~= a);
        assert(lines_among(a) + lines =~= lines_among(a));
        assert(lines_accepted(a) + lines =~= lines_accepted(a));
    } else {
        let rest = lines.drop_last();
        lines_of_both(a, rest);
        assert(both.drop_last() =~= a + accepted_lines(rest));
        assert((lines_among(a) + rest).push(lines.last()) =~= lines_among(a) + lines);
        assert((lines_accepted(a) + rest).push(lines.last()) =~= lines_accepted(a) + lines);
    }
}

/// The lines that are handed to the client's channel are exactly the messages that match and are no
/// chat to be ignored, each once and in the order of the checks. The client misses none of them but
/// the last, and that only if nobody listened any more.
pub proof fn exactly_the_matching_lines_are_passed_on(
    filters: Seq<OutputFilter>,
    messages: Seq<(Seq<char>, bool)>,
    keeps: Seq<bool>,
)
    requires
        are_checks(filters, messages, keeps),
    ensures
        ({
            let before = filters[0].offers();
            let after = filters.last().offers();
            let hits = filters[0].hits_among(messages);
            &&& lines_among(after) == lines_among(before) + hits
            &&& {
                ||| lines_accepted(after) == lines_accepted(before) + hits
                ||| {
                    &&& hits.len() > 0
                    &&& filters[0].hits(messages.last())
                    &&& !keeps.last()
                    &&& lines_accepted(after) == lines_accepted(before) + hits.drop_last()
                }
            }
        }),
{
    let first = filters[0];
    let before = first.offers();
    let after = filters.last().offers();
    let hits = first.hits_among(messages);
    if messages.len() == 0 || keeps.last() {
        assert forall|i: int| 0 <= i < keeps.len() implies #[trigger] keeps[i] by {}
        kept_so_far(filters, messages, keeps);
        lines_of_both(before, hits);
    } else {
        all_but_the_last(filters, messages, keeps);
        let ms = messages.drop_last();
        kept_so_far(filters.drop_last(), ms, keeps.drop_last());
        let earlier = first.hits_among(ms);
        let middle = before + accepted_lines(earlier);
        lines_of_both(before, earlier);
        let message = messages.last();
        reveal_with_fuel(lines_among, 3);
        reveal_with_fuel(lines_accepted, 3);
        if first.hits(message) {
            assert(hits.drop_last() =~= earlier);
            assert((lines_among(before) + earlier).push(message.0) =~= lines_among(before) + hits);
            assert((lines_accepted(before) + earlier).push(message.0) =~= lines_accepted(before)
                + hits);
            if after.len() == middle.len() + 1 {
                assert(after.drop_last() =~= middle);
            } else {
                assert(after.drop_last().drop_last() =~= middle);
                assert(after.drop_last().last() == after[middle.len() as int]);
            }
        } else {
            assert(after.drop_last() =~= middle);
        }
    }
}

/// `count` is how many lines can match. As long as somebody listens, the filter is dropped on the
/// n-th message that matches, and no sooner. The client has then got those n messages in their
/// order, and after them that the filter has expired.
pub proof fn count_ends_at_the_nth_match(
    filters: Seq<OutputFilter>,
    messages: Seq<(Seq<char>, bool)>,
    keeps: Seq<bool>,
    n: i32,
)
    requires
        are_checks(filters, messages, keeps),
        messages.len() > 0,
        n >= 1,
        filters[0].count == Some(n),
        filters[0].fail is None,
        all_accepted(filters[0], filters.last()),
    ensures
        ({
            let hits = filters[0].hits_among(messages);
            &&& keeps.last() <==> hits.len() < n
            &&& !keeps.last() ==> {
                &&& hits.len() == n
                &&& filters[0].hits(messages.last())
                &&& filters.last().offers() == filters[0].offers() + accepted_lines(hits).push(
                    (None, true),
                )
            }
        }),
{
    let first = filters[0];
    let hits = first.hits_among(messages);
    if keeps.last() {
        assert forall|i: int| 0 <= i < keeps.len() implies #[trigger] keeps[i] by {}
        kept_so_far(filters, messages, keeps);
    } else {
        all_but_the_last(filters, messages, keeps);
        let ms = messages.drop_last();
        kept_so_far(filters.drop_last(), ms, keeps.drop_last());
        let before = filters[messages.len() - 1].offers();
        let after = filters.last().offers();
        let message = messages.last();
        let earlier = first.hits_among(ms);
        assert(after[before.len() as int].1);
        assert(first.hits(message));
        assert(after.take(before.len() as int) == before);
        assert(accepted_lines(hits) =~= accepted_lines(earlier).push((Some(message.0), true)));
        assert(after[before.len() as int].0 == Some(message.0));
        assert(after[before.len() as int + 1].0 == None::<Seq<char>>);
        assert forall|i: int| 0 <= i < before.len() implies after[i] == before[i] by {
            assert(after.take(before.len() as int)[i] == after[i]);
        }
        assert(after =~= first.offers() + accepted_lines(hits).push((None, true)));
    }
}

/// `fail` is how many lines can not match. However many match in between, the filter is dropped on
/// the n-th message that does not, as long as somebody listens. The client has then got what
/// matched, and after it, once, that the filter has expired.
pub proof fn fail_ends_at_the_nth_miss(
    filters: Seq<OutputFilter>,
    messages: Seq<(Seq<char>, bool)>,
    keeps: Seq<bool>,
    n: i32,
)
    requires
        are_checks(filters, messages, keeps),
        messages.len() > 0,
        n >= 1,
        filters[0].fail == Some(n),
        filters[0].count is None,
        all_accepted(filters[0], filters.last()),
    ensures
        ({
            let misses = filters[0].misses_among(messages);
            let hits = filters[0].hits_among(messages);
            &&& keeps.last() <==> misses < n
            &&& filters.last().fail == Some((n - misses) as i32)
            &&& !keeps.last() ==> {
                &&& misses == n
                &&& filters[0].misses(messages.last())
                &&& filters.last().offers() == filters[0].offers() + accepted_lines(hits).push(
                    (None, true),
                )
            }
            &&& keeps.last() ==> filters.last().offers() == filters[0].offers() + accepted_lines(
                hits,
            )
        }),
{
    let first = filters[0];
    let hits = first.hits_among(messages);
    if keeps.last() {
        assert forall|i: int| 0 <= i < keeps.len() implies #[trigger] keeps[i] by {}
        kept_so_far(filters, messages, keeps);
    } else {
        all_but_the_last(filters, messages, keeps);
        let ms = messages.drop_last();
        kept_so_far(filters.drop_last(), ms, keeps.drop_last());
        let before = filters[messages.len() - 1].offers();
        let after = filters.last().offers();
        assert(after[before.len() as int].1);
        assert(first.misses(messages.last()));
        assert(after[before.len() as int].0 == None::<Seq<char>>);
        assert forall|i: int| 0 <= i < before.len() implies after[i] == before[i] by {
            assert(after.take(before.len() as int)[i] == after[i]);
        }
        assert(after =~= first.offers() + accepted_lines(hits).push((None, true)));
    }
}

/// Both limits together: as long as somebody listens, the filter is kept if and only if fewer lines
/// matched than `count` says, and fewer did not match than `fail` says; None says as many as there
/// are. A limit below 1 is reached by the first line that counts against it. The client has got what
/// matched, in order, and once the filter is dropped, that it has expired.
pub proof fn either_limit_ends_the_filter(
    filters: Seq<OutputFilter>,
    messages: Seq<(Seq<char>, bool)>,
    keeps: Seq<bool>,
)
    requires
        are_checks(filters, messages, keeps),
        messages.len() > 0,
        all_accepted(filters[0], filters.last()),
    ensures
        ({
            let hits = filters[0].hits_among(messages);
            let misses = filters[0].misses_among(messages);
            let matched_enough = match filters[0].count {
                Some(n) => hits.len() >= 1 && hits.len() >= n,
                None => false,
            };
            let missed_enough = match filters[0].fail {
                Some(m) => misses >= 1 && misses >= m,
                None => false,
            };
            &&& keeps.last() <==> !matched_enough && !missed_enough
            &&& filters.last().offers() == if keeps.last() {
                filters[0].offers() + accepted_lines(hits)
            } else {
                filters[0].offers() + accepted_lines(hits).push((None, true))
            }
        }),
{
    let first = filters[0];
    let hits = first.hits_among(messages);
    if keeps.last() {
        assert forall|i: int| 0 <= i < keeps.len() implies #[trigger] keeps[i] by {}
        kept_so_far(filters, messages, keeps);
    } else {
        all_but_the_last(filters, messages, keeps);
        let ms = messages.drop_last();
        kept_so_far(filters.drop_last(), ms, keeps.drop_last());
        let before = filters[messages.len() - 1].offers();
        let after = filters.last().offers();
        let message = messages.last();
        let earlier = first.hits_among(ms);
        assert(after[before.len() as int].1);
        assert(after.take(before.len() as int) == before);
        assert forall|i: int| 0 <= i < before.len() implies after[i] == before[i] by {
            assert(after.take(before.len() as int)[i] == after[i]);
        }
        if first.hits(message) {
            assert(accepted_lines(hits) =~= accepted_lines(earlier).push((Some(message.0), true)));
            assert(after[before.len() as int].0 == Some(message.0));
            assert(after[before.len() as int + 1].0 == None::<Seq<char>>);
            assert(after[before.len() as int + 1].1);
        } else {
            assert(first.misses(message));
            assert(after[before.len() as int].0 == None::<Seq<char>>);
        }
        assert(after =~= first.offers() + accepted_lines(hits).push((None, true)));
    }
}

/// One message that matches: it is handed to the client as it is. If nobody listens, the filter is
/// dropped without another word, and its limits stay. Otherwise it is kept as long as more than one
/// line can match; if that was the last one, the client is told so.
pub proof fn a_match_is_passed_on(
    before: OutputFilter,
    message: Seq<char>,
    is_chat: bool,
    after: OutputFilter,
    keep: bool,
)
    requires
        OutputFilter::checked(before, message, is_chat, true, after, keep),
        !is_chat || !before.ignore_chat,
    ensures
        ({
            let n = before.offers().len() as int;
            &&& after.offers().len() > n
            &&& forall|i: int| 0 <= i < n ==> after.offers()[i] == #[trigger] before.offers()[i]
            &&& after.offers()[n].0 == Some(message)
            &&& after.fail == before.fail
            &&& !after.offers()[n].1 ==> !keep && after.offers().len() == n + 1 && after.count
                == before.count
            &&& after.offers()[n].1 ==> {
                &&& keep <==> (before.count matches Some(limit) ==> limit > 1)
                &&& before.count matches Some(limit) ==> after.count == Some((limit - 1) as i32)
                &&& before.count is None ==> after.count is None
                &&& keep ==> after.offers().len() == n + 1
                &&& !keep ==> after.offers().len() == n + 2 && after.offers()[n + 1].0
                    == None::<Seq<char>>
            }
        }),
{
    let n = before.offers().len() as int;
    assert forall|i: int| 0 <= i < n implies after.offers()[i] == #[trigger] before.offers()[i] by {
        assert(after.offers().take(n)[i] == after.offers()[i]);
    }
    assert(after.offers()[n].0 == Some(message));
    if after.offers()[n].1 && !keep {
        assert(after.offers()[n + 1].0 == None::<Seq<char>>);
    }
}

/// One message that does not match: nothing is handed to the client as long as more than one line
/// can still fail to match. If that was the last one, the client is told so, and the filter is
/// dropped.
pub proof fn a_miss_is_counted(
    before: OutputFilter,
    message: Seq<char>,
    is_chat: bool,
    after: OutputFilter,
    keep: bool,
)
    requires
        OutputFilter::checked(before, message, is_chat, false, after, keep),
        !is_chat || !before.ignore_chat,
    ensures
        keep <==> (before.fail matches Some(limit) ==> limit > 1),
        before.fail matches Some(limit) ==> after.fail == Some((limit - 1) as i32),
        before.fail is None ==> after.fail is None,
        after.count == before.count,
        keep ==> after.offers() == before.offers(),
        !keep ==> {
            &&& after.offers().len() == before.offers().len() + 1
            &&& after.offers().drop_last() == before.offers()
            &&& after.offers().last().0 == None::<Seq<char>>
        },
{
    if !keep {
        assert(after.offers().drop_last() =~= after.offers().take(before.offers().len() as int));
    }
}

/// Builder struct for OutputFilter.
/// This is a consuming builder ie. the methods take `self` instead of `&mut self`.
pub struct OutputFilterBuilder {
    pub regex: Regex,
    pub chan_capacity: usize,
    pub count: Option<i32>,
    pub fail: Option<i32>,
    pub ignore_chat: bool,
}

impl OutputFilterBuilder {
    /// Sets how many outputs the channel retains for a client that lags behind.
    pub fn capacity(self, cap: usize) -> (builder: Self)
        ensures
            builder == (OutputFilterBuilder { chan_capacity: cap, ..self }),
    {
        OutputFilterBuilder { chan_capacity: cap, ..self }
    }

    /// Sets how many lines can match.
    pub fn count(self, c: Option<i32>) -> (builder: Self)
        ensures
            builder == (OutputFilterBuilder { count: c, ..self }),
    {
        OutputFilterBuilder { count: c, ..self }
    }

    /// Sets how many lines can not match.
    pub fn fail(self, f: Option<i32>) -> (builder: Self)
        ensures
            builder == (OutputFilterBuilder { fail: f, ..self }),
    {
        OutputFilterBuilder { fail: f, ..self }
    }

    /// Sets whether chat lines are skipped.
    pub fn ignore_chat(self, ic: bool) -> (builder: Self)
        ensures
            builder == (OutputFilterBuilder { ignore_chat: ic, ..self }),
    {
        OutputFilterBuilder { ignore_chat: ic, ..self }
    }

    /// Builds the filter, and the receiver on which its client gets the output.
    pub fn build(self) -> (built: (OutputFilter, broadcast::Receiver<FilterOutput>))
        requires
            0 < self.chan_capacity <= usize::MAX / 256,
        ensures
            built.0.regex == self.regex,
            built.0.count == self.count,
            built.0.fail == self.fail,
            built.0.ignore_chat == self.ignore_chat,
            built.0.offers() == Seq::<(Option<Seq<char>>, bool)>::empty(),
            built.0.feeds(built.1),
            external::rounded_capacity(
                self.chan_capacity as nat,
                external::broadcast_capacity(built.0.chan),
            ),
    {
        let (tx, rx) = external::broadcast_channel(self.chan_capacity);
        let filter = OutputFilter {
            regex: self.regex,
            chan: tx,
            count: self.count,
            fail: self.fail,
            ignore_chat: self.ignore_chat,
        };
        (filter, rx)
    }
}

// === Input filters ===

/// Holds back the console commands that match a regular expression, unless they come from the
/// attendant that asked for it.
pub struct InputFilter<S> {
    pub regex: Regex,
    /// To signal guard expiration.
    pub expired: S,
    /// To allow requests sent by the same client.
    pub client_id: u32,
    /// Tells the filters apart: no two filters in use have the same key.
    pub key: u64,
}

impl<S> InputFilter<S> {
    /// Checks if a message is matched by this filter.
    pub fn is_match(&self, message: &str) -> (found: bool)
        ensures
            found == external::regex_is_match(self.regex, message@),
    {
        external::is_match(&self.regex, message)
    }

    /// Checks if the filter comes from the same attendant.
    pub fn from_same_attendant(&self, request: &AttendantRequest<S>) -> (same: bool)
        ensures
            same == (self.client_id == request.client_id),
    {
        self.client_id == request.client_id
    }
}

impl<S: Signal> InputFilter<S> {
    /// Signals to the client this filter has expired. Returns None if there are no receivers.
    pub fn signal_expiration(&self) -> (heard: Option<()>)
        ensures
            call_ensures(S::ready, (&self.expired,), heard),
    {
        self.expired.ready()
    }
}

/// An input filter that is shared between the attendant that asked for it and the request
/// handler.
pub struct OurInputFilter<S>(pub Arc<InputFilter<S>>);

impl<S> OurInputFilter<S> {
    /// `count` is how many are found to hold the filter when they are counted.
    pub open spec fn held_by(self, count: usize) -> bool {
        shared::is_held_by(self.0, count)
    }

    /// Gets how many hold the filter.
    pub fn strong_count(&self) -> (count: usize)
        ensures
            self.held_by(count),
            count >= 1,
    {
        shared::holders_of(&self.0)
    }
}

impl<S> Clone for OurInputFilter<S> {
    fn clone(&self) -> (other: Self)
        ensures
            other == *self,
    {
        OurInputFilter(self.0.clone())
    }
}

impl<S> PartialEq for OurInputFilter<S> {
    fn eq(&self, other: &Self) -> (same: bool) {
        self.0.key == other.0.key
    }
}

impl<S> vstd::std_specs::cmp::PartialEqSpecImpl for OurInputFilter<S> {
    open spec fn obeys_eq_spec() -> bool {
        true
    }

    open spec fn eq_spec(&self, other: &Self) -> bool {
        self.0.key == other.0.key
    }
}

} // verus!
