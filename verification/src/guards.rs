//! The guards that are active, and the requests that they hold back: what a request handler keeps,
//! and what becomes of it.

use vstd::prelude::*;

use crate::expiroset::Element;
use crate::external;
use crate::filters::OurInputFilter;
use crate::minecraft::AttendantRequest;
use crate::slang;

verus! {

/// What a request handler keeps.
#[verifier::ext_equal]
pub struct Held<S> {
    /// The active input filters in the order in which they were added.
    pub guards: Seq<Element<OurInputFilter<S>>>,
    /// The requests that an input filter blocks, oldest first, under the key of the filter.
    pub blocked: Map<u64, Seq<AttendantRequest<S>>>,
    /// The requests that are no longer blocked, oldest first.
    pub unblocked: Seq<AttendantRequest<S>>,
}

/// The guard at `i` is the first that matches the console command `slash`.
pub open spec fn first_match<S>(
    guards: Seq<Element<OurInputFilter<S>>>,
    slash: Seq<char>,
    i: int,
) -> bool {
    &&& 0 <= i < guards.len()
    &&& external::regex_is_match(guards[i].value.0.regex, slash)
    &&& forall|j: int|
        0 <= j < i ==> !external::regex_is_match((#[trigger] guards[j]).value.0.regex, slash)
}

/// The guard at `i` blocks the console command `slash` of `client`: it is the first that matches,
/// and somebody else's.
pub open spec fn blocks<S>(
    guards: Seq<Element<OurInputFilter<S>>>,
    slash: Seq<char>,
    client: u32,
    i: int,
) -> bool {
    first_match(guards, slash, i) && guards[i].value.0.client_id != client
}

/// No guard blocks the console command `slash` of `client`.
pub open spec fn passes<S>(
    guards: Seq<Element<OurInputFilter<S>>>,
    slash: Seq<char>,
    client: u32,
) -> bool {
    forall|i: int| !#[trigger] blocks(guards, slash, client, i)
}

/// There is a guard with the key.
pub open spec fn guards_key<S>(guards: Seq<Element<OurInputFilter<S>>>, key: u64) -> bool {
    exists|i: int| 0 <= i < guards.len() && (#[trigger] guards[i]).value.0.key == key
}

/// The guards without the first that has the key.
pub open spec fn without_guard<S>(
    guards: Seq<Element<OurInputFilter<S>>>,
    key: u64,
) -> Seq<Element<OurInputFilter<S>>>
    decreases guards.len(),
{
    if guards.len() == 0 {
        guards
    } else if guards[0].value.0.key == key {
        guards.drop_first()
    } else {
        seq![guards[0]] + without_guard(guards.drop_first(), key)
    }
}

/// Taking out the first guard with the key, once it is known to be at `i`.
pub(crate) proof fn first_guard_at<S>(guards: Seq<Element<OurInputFilter<S>>>, key: u64, i: int)
    requires
        0 <= i < guards.len(),
        guards[i].value.0.key == key,
        forall|j: int| 0 <= j < i ==> (#[trigger] guards[j]).value.0.key != key,
    ensures
        without_guard(guards, key) == guards.remove(i),
    decreases guards.len(),
{
    if i == 0 {
        assert(guards.drop_first() =~= guards.remove(0));
    } else {
        let rest = guards.drop_first();
        first_guard_at(rest, key, i - 1);
        assert(seq![guards[0]] + rest.remove(i - 1) =~= guards.remove(i));
    }
}

/// There is no guard with the key to take out.
pub(crate) proof fn no_guard<S>(guards: Seq<Element<OurInputFilter<S>>>, key: u64)
    requires
        forall|j: int| 0 <= j < guards.len() ==> (#[trigger] guards[j]).value.0.key != key,
    ensures
        without_guard(guards, key) == guards,
    decreases guards.len(),
{
    if guards.len() > 0 {
        let rest = guards.drop_first();
        no_guard(rest, key);
        assert(seq![guards[0]] + rest =~= guards);
    }
}

impl<S> Held<S> {
    /// The requests that the filter with this key blocks.
    pub open spec fn blocked_by(self, key: u64) -> Seq<AttendantRequest<S>> {
        if self.blocked.contains_key(key) {
            self.blocked[key]
        } else {
            Seq::empty()
        }
    }

    /// Once the filter with this key blocks one more request.
    pub open spec fn queued(self, key: u64, request: AttendantRequest<S>) -> Held<S> {
        Held { blocked: self.blocked.insert(key, self.blocked_by(key).push(request)), ..self }
    }

    /// Once the requests that the filter with this key blocks are unblocked.
    pub open spec fn requeued(self, key: u64) -> Held<S> {
        Held {
            blocked: self.blocked.remove(key),
            unblocked: self.unblocked + self.blocked_by(key),
            ..self
        }
    }

    /// Once the filter with this key is dropped.
    pub open spec fn dropped(self, key: u64) -> Held<S> {
        Held { guards: without_guard(self.guards, key), ..self }.requeued(key)
    }

    /// Once the filters with these keys are dropped, one after the other.
    pub open spec fn all_dropped(self, keys: Seq<u64>) -> Held<S>
        decreases keys.len(),
    {
        if keys.len() == 0 {
            self
        } else {
            self.all_dropped(keys.drop_last()).dropped(keys.last())
        }
    }

    /// Nobody but the handler holds the guard at `i`, given how many hold each.
    pub open spec fn unused(self, counts: Seq<usize>, i: int) -> bool {
        counts[i] == 1 || counts[i] == 2 && self.blocked.contains_key(self.guards[i].value.0.key)
    }

    /// The keys of the first `n` guards, as far as nobody but the handler holds them.
    pub open spec fn unused_keys(self, counts: Seq<usize>, n: nat) -> Seq<u64>
        decreases n,
    {
        if n == 0 {
            Seq::empty()
        } else if self.unused(counts, n - 1) {
            self.unused_keys(counts, (n - 1) as nat).push(self.guards[n - 1].value.0.key)
        } else {
            self.unused_keys(counts, (n - 1) as nat)
        }
    }

    /// Once the guards are dropped that nobody but the handler holds.
    pub open spec fn refreshed(self, counts: Seq<usize>) -> Held<S> {
        self.all_dropped(self.unused_keys(counts, self.guards.len()))
    }

    /// Every request that is blocked waits for a guard that is still active.
    pub open spec fn live(self) -> bool {
        forall|key: u64| #[trigger] self.blocked.contains_key(key) ==> guards_key(self.guards, key)
    }

    /// Whether this request is kept.
    pub open spec fn holds(self, request: AttendantRequest<S>) -> bool {
        ||| self.unblocked.contains(request)
        ||| exists|key: u64| #[trigger]
            self.blocked.contains_key(key) && self.blocked[key].contains(request)
    }
}

/// What becomes of a request with the console command `slash`, once the guards are refreshed:
/// `before` and `after` are what the handler keeps, `passed` is the request if it passed.
pub open spec fn admitted<S>(
    before: Held<S>,
    request: AttendantRequest<S>,
    slash: Seq<char>,
    after: Held<S>,
    passed: Option<AttendantRequest<S>>,
) -> bool {
    match passed {
        Some(given_back) => {
            &&& passes(before.guards, slash, request.client_id)
            &&& given_back == request
            &&& after == before
        },
        None => exists|i: int| #[trigger]
            blocks(before.guards, slash, request.client_id, i) && after == before.queued(
                before.guards[i].value.0.key,
                request,
            ),
    }
}

/// Taking out the guard at `i` leaves every other key in place.
pub(crate) proof fn other_guards_stay<S>(guards: Seq<Element<OurInputFilter<S>>>, i: int)
    requires
        0 <= i < guards.len(),
    ensures
        forall|key: u64|
            key != guards[i].value.0.key && guards_key(guards, key) ==> #[trigger] guards_key(
                guards.remove(i),
                key,
            ),
{
    let after = guards.remove(i);
    assert forall|key: u64|
        key != guards[i].value.0.key && guards_key(guards, key) implies #[trigger] guards_key(
        after,
        key,
    ) by {
        let at = choose|at: int| 0 <= at < guards.len() && (#[trigger] guards[at]).value.0.key == key;
        let to = if at < i {
            at
        } else {
            at - 1
        };
        assert(after[to] == guards[at]);
    }
}

/// As long as the filters stay, so does every key.
pub(crate) proof fn keys_stay<S>(
    before: Seq<Element<OurInputFilter<S>>>,
    after: Seq<Element<OurInputFilter<S>>>,
)
    requires
        before.len() <= after.len(),
        forall|i: int| 0 <= i < before.len() ==> (#[trigger] after[i]).value == before[i].value,
    ensures
        forall|key: u64| guards_key(before, key) ==> #[trigger] guards_key(after, key),
{
    assert forall|key: u64| guards_key(before, key) implies #[trigger] guards_key(after, key) by {
        let at = choose|at: int|
            0 <= at < before.len() && (#[trigger] before[at]).value.0.key == key;
        assert(after[at].value == before[at].value);
    }
}

/// A command that the client's own guard matches passes, unless another client's guard that was
/// added earlier matches it too.
pub proof fn own_guard_lets_through<S>(
    guards: Seq<Element<OurInputFilter<S>>>,
    slash: Seq<char>,
    client: u32,
    own: int,
)
    requires
        0 <= own < guards.len(),
        guards[own].value.0.client_id == client,
        external::regex_is_match(guards[own].value.0.regex, slash),
        forall|j: int|
            0 <= j < own && (#[trigger] guards[j]).value.0.client_id != client
                ==> !external::regex_is_match(guards[j].value.0.regex, slash),
    ensures
        passes(guards, slash, client),
{
}

/// A command that no guard matches passes.
pub proof fn unmatched_command_passes<S>(
    guards: Seq<Element<OurInputFilter<S>>>,
    slash: Seq<char>,
    client: u32,
)
    requires
        forall|j: int|
            0 <= j < guards.len() ==> !external::regex_is_match(
                (#[trigger] guards[j]).value.0.regex,
                slash,
            ),
    ensures
        passes(guards, slash, client),
{
}

/// At most one guard blocks a command.
pub proof fn blocking_guard_is_unique<S>(
    guards: Seq<Element<OurInputFilter<S>>>,
    slash: Seq<char>,
    client: u32,
    i: int,
    j: int,
)
    requires
        blocks(guards, slash, client, i),
        blocks(guards, slash, client, j),
    ensures
        i == j,
{
    if i < j {
        assert(!external::regex_is_match(guards[i].value.0.regex, slash));
    } else if j < i {
        assert(!external::regex_is_match(guards[j].value.0.regex, slash));
    }
}

/// Blocking a request keeps it, and every request that was kept before.
pub proof fn queueing_keeps_every_request<S>(
    before: Held<S>,
    key: u64,
    queued: AttendantRequest<S>,
    request: AttendantRequest<S>,
)
    ensures
        before.queued(key, queued).holds(request) <==> before.holds(request) || request == queued,
{
    let after = before.queued(key, queued);
    let old_queue = before.blocked_by(key);
    let queue = old_queue.push(queued);
    assert(after.blocked[key] == queue);
    if request == queued {
        assert(queue[old_queue.len() as int] == request);
        assert(after.blocked.contains_key(key) && after.blocked[key].contains(request));
    }
    if before.holds(request) && !before.unblocked.contains(request) {
        let k = choose|k: u64| #[trigger]
            before.blocked.contains_key(k) && before.blocked[k].contains(request);
        if k == key {
            let i = old_queue.index_of(request);
            assert(queue[i] == request);
        }
        assert(after.blocked.contains_key(k) && after.blocked[k].contains(request));
    }
    if after.holds(request) && !after.unblocked.contains(request) {
        let k = choose|k: u64| #[trigger]
            after.blocked.contains_key(k) && after.blocked[k].contains(request);
        if k == key {
            let i = queue.index_of(request);
            if i < old_queue.len() {
                assert(old_queue[i] == request);
                assert(before.blocked.contains_key(k));
            }
        } else {
            assert(before.blocked.contains_key(k));
        }
    }
}

/// Unblocking the requests that a filter blocks loses none and adds none.
pub proof fn requeueing_keeps_every_request<S>(
    before: Held<S>,
    key: u64,
    request: AttendantRequest<S>,
)
    ensures
        before.requeued(key).holds(request) <==> before.holds(request),
{
    let after = before.requeued(key);
    let queue = before.blocked_by(key);
    if before.holds(request) {
        if before.unblocked.contains(request) {
            let i = before.unblocked.index_of(request);
            assert(after.unblocked[i] == request);
        } else {
            let k = choose|k: u64| #[trigger]
                before.blocked.contains_key(k) && before.blocked[k].contains(request);
            if k == key {
                let i = queue.index_of(request);
                assert(after.unblocked[before.unblocked.len() + i] == request);
            } else {
                assert(after.blocked.contains_key(k));
            }
        }
    }
    if after.holds(request) {
        if after.unblocked.contains(request) {
            let i = after.unblocked.index_of(request);
            if i < before.unblocked.len() {
                assert(before.unblocked[i] == request);
            } else {
                assert(queue[i - before.unblocked.len()] == request);
                assert(before.blocked.contains_key(key));
            }
        } else {
            let k = choose|k: u64| #[trigger]
                after.blocked.contains_key(k) && after.blocked[k].contains(request);
            assert(before.blocked.contains_key(k));
        }
    }
}

/// Dropping guards, whichever they are, loses no request and adds none.
pub proof fn dropping_keeps_every_request<S>(
    before: Held<S>,
    keys: Seq<u64>,
    request: AttendantRequest<S>,
)
    ensures
        before.all_dropped(keys).holds(request) <==> before.holds(request),
    decreases keys.len(),
{
    if keys.len() > 0 {
        dropping_keeps_every_request(before, keys.drop_last(), request);
        let middle = before.all_dropped(keys.drop_last());
        let without = Held { guards: without_guard(middle.guards, keys.last()), ..middle };
        requeueing_keeps_every_request(without, keys.last(), request);
        assert(without.holds(request) <==> middle.holds(request));
    }
}

/// Refreshing the guards loses no request and adds none, whoever holds the guards.
pub proof fn refreshing_keeps_every_request<S>(
    before: Held<S>,
    counts: Seq<usize>,
    request: AttendantRequest<S>,
)
    ensures
        before.refreshed(counts).holds(request) <==> before.holds(request),
{
    dropping_keeps_every_request(
        before,
        before.unused_keys(counts, before.guards.len()),
        request,
    );
}

/// Dropping guards leaves the requests that are unblocked where they are, and adds to the end.
pub(crate) proof fn dropping_adds_to_the_end<S>(before: Held<S>, keys: Seq<u64>)
    ensures
        before.unblocked.is_prefix_of(before.all_dropped(keys).unblocked),
    decreases keys.len(),
{
    if keys.len() > 0 {
        dropping_adds_to_the_end(before, keys.drop_last());
    }
}

/// The queue of the requests that a guard blocks counts as one more that holds it.
pub open spec fn with_queue(holders: usize, blocking: bool) -> usize {
    if blocking && holders < usize::MAX {
        (holders + 1) as usize
    } else {
        holders
    }
}

/// How many are found to hold the guard at `i`.
pub open spec fn is_count<S>(held: Held<S>, i: int, count: usize) -> bool {
    exists|holders: usize|
        {
            &&& #[trigger] held.guards[i].value.held_by(holders)
            &&& holders >= 1
            &&& count == with_queue(
                holders,
                held.blocked.contains_key(held.guards[i].value.0.key),
            )
        }
}

/// How many are found to hold each of the guards, the handler and the queues of the requests that
/// it keeps among them.
pub open spec fn are_counts<S>(held: Held<S>, counts: Seq<usize>) -> bool {
    &&& counts.len() == held.guards.len()
    &&& forall|i: int|
        0 <= i < held.guards.len() ==> is_count(held, i, #[trigger] counts[i])
}

/// No two guards have the same key.
pub open spec fn distinct_keys<S>(guards: Seq<Element<OurInputFilter<S>>>) -> bool {
    forall|i: int, j: int|
        0 <= i < j < guards.len() ==> (#[trigger] guards[i]).value.0.key != (
        #[trigger] guards[j]).value.0.key
}

/// Taking out the guard with a key takes out that key and no other.
proof fn without_guard_keys<S>(guards: Seq<Element<OurInputFilter<S>>>, key: u64)
    requires
        distinct_keys(guards),
    ensures
        distinct_keys(without_guard(guards, key)),
        forall|k: u64| #[trigger]
            guards_key(without_guard(guards, key), k) <==> guards_key(guards, k) && k != key,
{
    if guards_key(guards, key) {
        let at = choose|at: int| 0 <= at < guards.len() && (#[trigger] guards[at]).value.0.key == key;
        first_guard_at(guards, key, at);
        other_guards_stay(guards, at);
        let after = guards.remove(at);
        assert forall|k: u64| #[trigger] guards_key(after, k) implies guards_key(guards, k) && k
            != key by {
            let i = choose|i: int| 0 <= i < after.len() && (#[trigger] after[i]).value.0.key == k;
            let from = if i < at {
                i
            } else {
                i + 1
            };
            assert(guards[from] == after[i]);
        }
    } else {
        no_guard(guards, key);
    }
}

/// Dropping the guards with these keys drops those and no other.
proof fn all_dropped_keys<S>(before: Held<S>, keys: Seq<u64>)
    requires
        distinct_keys(before.guards),
    ensures
        distinct_keys(before.all_dropped(keys).guards),
        forall|k: u64| #[trigger]
            guards_key(before.all_dropped(keys).guards, k) <==> guards_key(before.guards, k)
                && !keys.contains(k),
    decreases keys.len(),
{
    if keys.len() > 0 {
        let rest = keys.drop_last();
        all_dropped_keys(before, rest);
        let middle = before.all_dropped(rest);
        without_guard_keys(middle.guards, keys.last());
        assert forall|k: u64| keys.contains(k) <==> rest.contains(k) || k == keys.last() by {
            if rest.contains(k) {
                assert(keys[rest.index_of(k)] == k);
            }
            if keys.contains(k) && k != keys.last() {
                assert(rest[keys.index_of(k)] == k);
            }
        }
    }
}

/// The keys that count as unused are those of unused guards.
proof fn unused_keys_are_unused<S>(before: Held<S>, counts: Seq<usize>, n: nat, key: u64)
    requires
        n <= before.guards.len(),
    ensures
        before.unused_keys(counts, n).contains(key) <==> exists|i: int|
            0 <= i < n && (#[trigger] before.guards[i]).value.0.key == key && before.unused(counts, i),
    decreases n,
{
    if n > 0 {
        let m = (n - 1) as nat;
        unused_keys_are_unused(before, counts, m, key);
        let rest = before.unused_keys(counts, m);
        let keys = before.unused_keys(counts, n);
        if before.unused(counts, n - 1) {
            if rest.contains(key) {
                assert(keys[rest.index_of(key)] == key);
            }
            if before.guards[n - 1].value.0.key == key {
                assert(keys[rest.len() as int] == key);
            } else if keys.contains(key) {
                assert(rest[keys.index_of(key)] == key);
            }
        }
    }
}

/// Refreshing the guards drops those that nobody but the handler holds, and no other.
pub proof fn refreshing_drops_unused_guards<S>(before: Held<S>, counts: Seq<usize>, i: int)
    requires
        distinct_keys(before.guards),
        are_counts(before, counts),
        0 <= i < before.guards.len(),
    ensures
        guards_key(before.refreshed(counts).guards, before.guards[i].value.0.key) <==> !before.unused(
            counts,
            i,
        ),
{
    let key = before.guards[i].value.0.key;
    all_dropped_keys(before, before.unused_keys(counts, before.guards.len()));
    unused_keys_are_unused(before, counts, before.guards.len(), key);
}

// === What becomes of a command, and of the requests that wait ===

/// The guard at `i` matches the console command, and no guard before it does.
pub open spec fn decides<S>(
    guards: Seq<Element<OurInputFilter<S>>>,
    slash: Seq<char>,
    i: int,
) -> bool {
    &&& 0 <= i < guards.len()
    &&& external::regex_is_match(guards[i].value.0.regex, slash)
    &&& forall|j: int|
        0 <= j < i ==> !external::regex_is_match((#[trigger] guards[j]).value.0.regex, slash)
}

/// The guards let the console command of the client through: none matches it, or the first that
/// does is the client's own.
pub open spec fn let_through<S>(
    guards: Seq<Element<OurInputFilter<S>>>,
    slash: Seq<char>,
    client: u32,
) -> bool {
    ||| forall|i: int|
        0 <= i < guards.len() ==> !external::regex_is_match(
            (#[trigger] guards[i]).value.0.regex,
            slash,
        )
    ||| exists|i: int| #[trigger]
        decides(guards, slash, i) && guards[i].value.0.client_id == client
}

/// If some guard matches a command, there is a first one.
proof fn some_guard_decides<S>(
    guards: Seq<Element<OurInputFilter<S>>>,
    slash: Seq<char>,
    n: int,
)
    requires
        0 <= n < guards.len(),
        external::regex_is_match(guards[n].value.0.regex, slash),
    ensures
        exists|i: int| #[trigger] decides(guards, slash, i),
    decreases n,
{
    if exists|j: int|
        0 <= j < n && external::regex_is_match((#[trigger] guards[j]).value.0.regex, slash) {
        let j = choose|j: int|
            0 <= j < n && external::regex_is_match((#[trigger] guards[j]).value.0.regex, slash);
        some_guard_decides(guards, slash, j);
    } else {
        assert(decides(guards, slash, n));
    }
}

/// A command passes if and only if no guard matches it, or the first guard that does is the
/// client's own. Otherwise that guard belongs to a client with another id, lower or higher, and the
/// request comes last in the queue of that guard. Nothing else changes.
pub proof fn a_command_passes_or_waits<S>(
    before: Held<S>,
    request: AttendantRequest<S>,
    slash: Seq<char>,
    after: Held<S>,
    passed: Option<AttendantRequest<S>>,
)
    requires
        admitted(before, request, slash, after, passed),
    ensures
        passed is Some <==> let_through(before.guards, slash, request.client_id),
        passed matches Some(given_back) ==> given_back == request && after == before,
        passed is None ==> exists|i: int|
            {
                let key = before.guards[i].value.0.key;
                &&& #[trigger] decides(before.guards, slash, i)
                &&& before.guards[i].value.0.client_id != request.client_id
                &&& after.guards == before.guards
                &&& after.unblocked == before.unblocked
                &&& after.blocked.dom() == before.blocked.dom().insert(key)
                &&& after.blocked[key] == (if before.blocked.contains_key(key) {
                    before.blocked[key]
                } else {
                    Seq::empty()
                }).push(request)
                &&& forall|other: u64|
                    other != key && before.blocked.contains_key(other)
                        ==> #[trigger] after.blocked[other] == before.blocked[other]
            },
{
    let guards = before.guards;
    let client = request.client_id;
    assert forall|i: int| #[trigger] decides(guards, slash, i) implies first_match(
        guards,
        slash,
        i,
    ) by {}
    match passed {
        Some(_) => {
            if exists|n: int|
                0 <= n < guards.len() && external::regex_is_match(
                    (#[trigger] guards[n]).value.0.regex,
                    slash,
                ) {
                let n = choose|n: int|
                    0 <= n < guards.len() && external::regex_is_match(
                        (#[trigger] guards[n]).value.0.regex,
                        slash,
                    );
                some_guard_decides(guards, slash, n);
                let i = choose|i: int| #[trigger] decides(guards, slash, i);
                assert(!blocks(guards, slash, client, i));
            }
        },
        None => {
            let i = choose|i: int| #[trigger]
                blocks(guards, slash, client, i) && after == before.queued(
                    guards[i].value.0.key,
                    request,
                );
            assert(decides(guards, slash, i));
            assert forall|j: int| #[trigger] decides(guards, slash, j) implies j == i by {
                if j < i {
                    assert(!external::regex_is_match(guards[j].value.0.regex, slash));
                } else if i < j {
                    assert(!external::regex_is_match(guards[i].value.0.regex, slash));
                }
            }
            let key = guards[i].value.0.key;
            assert(after.blocked.dom() =~= before.blocked.dom().insert(key));
        },
    }
}

/// The requests that a guard blocks are let go all at once, in the order in which they came, after
/// those that were let go before. Those of other guards wait on.
pub proof fn requests_are_let_go_in_order<S>(before: Held<S>, key: u64, other: u64)
    ensures
        before.requeued(key).guards == before.guards,
        before.blocked.contains_key(key) ==> before.requeued(key).unblocked == before.unblocked
            + before.blocked[key],
        !before.blocked.contains_key(key) ==> before.requeued(key).unblocked == before.unblocked,
        !before.requeued(key).blocked.contains_key(key),
        other != key ==> (before.requeued(key).blocked.contains_key(other)
            <==> before.blocked.contains_key(other)),
        other != key && before.blocked.contains_key(other) ==> before.requeued(key).blocked[other]
            == before.blocked[other],
{
    if !before.blocked.contains_key(key) {
        assert(before.unblocked + Seq::empty() =~= before.unblocked);
    }
}

/// Which guards are still in use, given how many hold each: more than the handler, and more than
/// the handler and the queue of the requests that it blocks.
pub open spec fn in_use<S>(held: Held<S>, counts: Seq<usize>) -> Seq<bool> {
    Seq::new(
        held.guards.len(),
        |i: int|
            counts[i] != 1 && !(counts[i] == 2 && held.blocked.contains_key(
                held.guards[i].value.0.key,
            )),
    )
}

/// The requests that the first `n` guards block, as far as the guards are not in use, guard by
/// guard.
pub open spec fn waiting_for_nobody<S>(held: Held<S>, counts: Seq<usize>, n: nat) -> Seq<
    AttendantRequest<S>,
>
    decreases n,
{
    if n == 0 {
        Seq::empty()
    } else {
        let key = held.guards[n - 1].value.0.key;
        let earlier = waiting_for_nobody(held, counts, (n - 1) as nat);
        if !in_use(held, counts)[n - 1] && held.blocked.contains_key(key) {
            earlier + held.blocked[key]
        } else {
            earlier
        }
    }
}

/// One of the first `n` guards has this key, and is not in use.
pub open spec fn is_lifted<S>(held: Held<S>, counts: Seq<usize>, n: nat, key: u64) -> bool {
    exists|i: int|
        0 <= i < n && (#[trigger] held.guards[i]).value.0.key == key && !in_use(held, counts)[i]
}

/// What dropping the first `n` guards, as far as they are not in use, comes to.
proof fn refreshed_so_far<S>(before: Held<S>, counts: Seq<usize>, n: nat)
    requires
        distinct_keys(before.guards),
        n <= before.guards.len(),
    ensures
        ({
            let after = before.all_dropped(before.unused_keys(counts, n));
            &&& after.guards == slang::kept(
                before.guards.take(n as int),
                in_use(before, counts).take(n as int),
            ) + before.guards.skip(n as int)
            &&& after.unblocked == before.unblocked + waiting_for_nobody(before, counts, n)
            &&& forall|key: u64| #[trigger]
                after.blocked.contains_key(key) <==> before.blocked.contains_key(key)
                    && !is_lifted(before, counts, n, key)
            &&& forall|key: u64| #[trigger]
                after.blocked.contains_key(key) ==> after.blocked[key] == before.blocked[key]
        }),
    decreases n,
{
    let flags = in_use(before, counts);
    if n == 0 {
        assert(before.guards.skip(0) =~= before.guards);
        assert(slang::kept(before.guards.take(0), flags.take(0)) =~= Seq::empty());
        assert(Seq::<Element<OurInputFilter<S>>>::empty() + before.guards.skip(0) =~= before.guards);
        assert(before.unblocked + Seq::empty() =~= before.unblocked);
    } else {
        let m = (n - 1) as nat;
        refreshed_so_far(before, counts, m);
        let middle = before.all_dropped(before.unused_keys(counts, m));
        let guard = before.guards[m as int];
        let key = guard.value.0.key;
        let earlier = slang::kept(before.guards.take(m as int), flags.take(m as int));
        let rest = before.guards.skip(n as int);
        assert(before.guards.take(n as int).drop_last() =~= before.guards.take(m as int));
        assert(flags.take(n as int).drop_last() =~= flags.take(m as int));
        assert(before.guards.skip(m as int) =~= seq![guard] + rest);
        assert(flags[m as int] == !before.unused(counts, m as int));
        assert forall|k: u64| is_lifted(before, counts, n, k) <==> is_lifted(before, counts, m, k)
            || (k == key && !flags[m as int]) by {
            if is_lifted(before, counts, n, k) {
                let i = choose|i: int|
                    0 <= i < n && (#[trigger] before.guards[i]).value.0.key == k && !flags[i];
                if i < m {
                    assert(before.guards[i].value.0.key == k);
                }
            }
            if k == key && !flags[m as int] {
                assert(before.guards[m as int].value.0.key == k);
            }
        }
        if flags[m as int] {
            assert(middle.guards =~= earlier.push(guard) + rest);
        } else {
            let keys = before.unused_keys(counts, n);
            assert(keys.drop_last() =~= before.unused_keys(counts, m));
            let from = slang::kept_values_come_from(
                before.guards.take(m as int),
                flags.take(m as int),
            );
            let at = earlier.len() as int;
            assert(middle.guards[at] == guard);
            assert forall|j: int| 0 <= j < at implies (
            #[trigger] middle.guards[j]).value.0.key != key by {
                assert(middle.guards[j] == earlier[j]);
                assert(0 <= from[j] < m);
                assert(earlier[j] == before.guards[from[j]]);
                assert(before.guards[from[j]].value.0.key != before.guards[m as int].value.0.key);
            }
            first_guard_at(middle.guards, key, at);
            assert(middle.guards.remove(at) =~= earlier + rest);
            assert(!is_lifted(before, counts, m, key)) by {
                if is_lifted(before, counts, m, key) {
                    let i = choose|i: int|
                        0 <= i < m && (#[trigger] before.guards[i]).value.0.key == key
                            && !flags[i];
                    assert(before.guards[i].value.0.key != before.guards[m as int].value.0.key);
                }
            }
            let after = before.all_dropped(keys);
            if before.blocked.contains_key(key) {
                assert(middle.blocked.contains_key(key));
                assert(after.unblocked =~= before.unblocked + (waiting_for_nobody(
                    before,
                    counts,
                    m,
                ) + before.blocked[key]));
            } else {
                assert(!middle.blocked.contains_key(key));
                assert(after.unblocked =~= middle.unblocked);
            }
        }
    }
}

/// Refreshing the guards lifts exactly those that are not in use, wherever they stand: those that
/// nobody but the handler holds, and those that nobody but the handler and the queue of their
/// requests holds. The others stay in their order. The requests that waited for the lifted guards
/// are let go, guard by guard and in the order in which they came, after those that were let go
/// before.
pub proof fn guards_that_are_not_in_use_are_lifted<S>(before: Held<S>, counts: Seq<usize>)
    requires
        distinct_keys(before.guards),
    ensures
        ({
            let after = before.refreshed(counts);
            let n = before.guards.len();
            &&& after.guards == slang::kept(before.guards, in_use(before, counts))
            &&& after.unblocked == before.unblocked + waiting_for_nobody(before, counts, n)
            &&& forall|key: u64| #[trigger]
                after.blocked.contains_key(key) <==> before.blocked.contains_key(key)
                    && !is_lifted(before, counts, n, key)
            &&& forall|key: u64| #[trigger]
                after.blocked.contains_key(key) ==> after.blocked[key] == before.blocked[key]
        }),
{
    let n = before.guards.len();
    refreshed_so_far(before, counts, n);
    let flags = in_use(before, counts);
    assert(before.guards.take(n as int) =~= before.guards);
    assert(flags.take(n as int) =~= flags);
    let all = slang::kept(before.guards, flags);
    assert(all + before.guards.skip(n as int) =~= all);
}

/// A guard is lifted at the next refresh if nobody but the handler holds it when those who hold it
/// are counted, and stays if somebody else does. That the handler also keeps the requests which wait
/// for it makes no difference.
pub proof fn a_guard_lasts_while_somebody_holds_it<S>(before: Held<S>, counts: Seq<usize>, i: int)
    requires
        distinct_keys(before.guards),
        are_counts(before, counts),
        0 <= i < before.guards.len(),
    ensures
        (forall|holders: usize| #[trigger]
            before.guards[i].value.held_by(holders) ==> holders == 1) ==> forall|j: int|
            0 <= j < before.refreshed(counts).guards.len() ==> (#[trigger] before.refreshed(
                counts,
            ).guards[j]).value.0.key != before.guards[i].value.0.key,
        (forall|holders: usize| #[trigger]
            before.guards[i].value.held_by(holders) ==> holders >= 2) ==> before.refreshed(
            counts,
        ).guards.contains(before.guards[i]),
{
    guards_that_are_not_in_use_are_lifted(before, counts);
    let flags = in_use(before, counts);
    let after = before.refreshed(counts).guards;
    let from = slang::kept_values_come_from(before.guards, flags);
    let blocking = before.blocked.contains_key(before.guards[i].value.0.key);
    assert(is_count(before, i, counts[i]));
    let holders = choose|holders: usize|
        {
            &&& #[trigger] before.guards[i].value.held_by(holders)
            &&& holders >= 1
            &&& counts[i] == with_queue(holders, blocking)
        };
    if holders == 1 {
        assert(!flags[i]);
        assert forall|j: int| 0 <= j < after.len() implies (#[trigger] after[j]).value.0.key
            != before.guards[i].value.0.key by {
            assert(flags[from[j]]);
            let k = from[j];
            if k < i {
                assert(before.guards[k].value.0.key != before.guards[i].value.0.key);
            } else {
                assert(before.guards[i].value.0.key != before.guards[k].value.0.key);
            }
        }
    } else {
        assert(flags[i]);
        let k = from.index_of(i);
        assert(after[k] == before.guards[i]);
    }
}

} // verus!
