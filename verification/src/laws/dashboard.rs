//! What the dashboard shows, and what its keys do.

use crate::laws::basics::{lemma_without, lemma_without_absent};
use crate::laws::collections::{lemma_total, sum_before};
use crate::laws::number;
use crate::protocol::{BackendSnapshot, DashboardCmd, DashboardSnapshot};
use crate::seqs::lemma_filter_push;
use crate::text::{has_prefix, text_before, texts};
use crate::tui::{
    all_backend_lines, backend_lines, blocked_items, is_other_than, items_shown,
    law_toggle_changes_one, level_paint, level_text, listed_before, model_lines, queue_row, requests,
    shown, shows_queue, shows_user, toggle_vip, toggled, user_row, BackendLine, BlockedItem,
    BlockedText, CurrentPanel, Key, KeyOutcome, Paint, QueueRow, StatsLine, TuiDashboard,
    UserMark, UserRow,
};
use vstd::prelude::*;

verus! {

/// The symbols and colours of the marks.
pub proof fn law_marks(mark: &UserMark, symbol: &'static str, paint: Paint)
    requires
        call_ensures(UserMark::symbol, (mark,), symbol),
        call_ensures(UserMark::paint, (mark,), paint),
    ensures
        *mark == UserMark::Blocked ==> symbol@ == "✖ "@ && paint == Paint::Red,
        *mark == UserMark::Vip ==> symbol@ == "★ "@ && paint == Paint::Magenta,
        *mark == UserMark::Processing ==> symbol@ == "▶ "@ && paint == Paint::Cyan,
        *mark == UserMark::Queued ==> symbol@ == "● "@ && paint == Paint::Green,
        *mark == UserMark::Idle ==> symbol@ == "○ "@ && paint == Paint::DarkGray,
{
}

/// The colours of the levels.
pub proof fn law_level_paint(level: &str, r: Paint)
    requires
        call_ensures(level_paint, (level,), r),
    ensures
        r == Paint::Blue <==> level@ == "DEBUG"@,
        r == Paint::White <==> level@ == "INFO"@,
        r == Paint::Yellow <==> level@ == "WARN"@,
        r == Paint::Red <==> level@ == "ERROR"@,
        r == Paint::Blue || r == Paint::White || r == Paint::Yellow || r == Paint::Red || r
            == Paint::Gray,
{
    reveal_strlit("DEBUG");
    reveal_strlit("INFO");
    reveal_strlit("WARN");
    reveal_strlit("ERROR");
    assert("DEBUG"@[0] == 'D' && "INFO"@[0] == 'I' && "WARN"@[0] == 'W' && "ERROR"@[0] == 'E');
}

/// A level is filled up with spaces to six characters, and gets at least one.
pub proof fn law_level_text(level: &str, r: String, i: int)
    requires
        call_ensures(level_text, (level,), r),
    ensures
        level@.len() <= 5 ==> r@.len() == 6,
        level@.len() > 5 ==> r@.len() == level@.len() + 1,
        0 <= i < level@.len() ==> r@[i] == level@[i],
        level@.len() <= i < r@.len() ==> r@[i] == ' ',
{
}

/// Whether `user` is in a list.
pub open spec fn is_listed(list: Seq<String>, user: Seq<char>) -> bool {
    exists|i: int| 0 <= i < list.len() && (#[trigger] list[i])@ == user
}

proof fn lemma_is_listed(list: Seq<String>, user: Seq<char>)
    ensures
        texts(list).contains(user) <==> is_listed(list, user),
{
    if texts(list).contains(user) {
        assert(list[texts(list).index_of(user)]@ == user);
    }
    if is_listed(list, user) {
        let i = choose|i: int| 0 <= i < list.len() && (#[trigger] list[i])@ == user;
        assert(texts(list)[i] == user);
    }
}

/// Whether `row` is the row of `user`: blocked by name or by the last address before all else, then
/// VIP, then at work, then waiting.
pub open spec fn is_user_row(row: UserRow, s: DashboardSnapshot, user: Seq<char>) -> bool {
    let working = number(s.processing_counts@, user);
    let queued = number(s.queues_len@, user);
    &&& row.user@ == user
    &&& s.user_ips@.dom().contains(user) ==> row.ip@ == s.user_ips@[user]@
    &&& !s.user_ips@.dom().contains(user) ==> row.ip@.len() == 0
    &&& row.is_blocked <==> s.blocked_users@.contains(user) || s.blocked_ips@.contains(row.ip@)
    &&& row.is_vip <==> is_listed(s.vip_list@, user)
    &&& row.mark == UserMark::Blocked <==> row.is_blocked
    &&& row.mark == UserMark::Vip <==> !row.is_blocked && row.is_vip
    &&& row.mark == UserMark::Processing <==> !row.is_blocked && !row.is_vip && working > 0
    &&& row.mark == UserMark::Queued <==> !row.is_blocked && !row.is_vip && working == 0 && queued
        > 0
    &&& row.waiting == queued + working
    &&& row.done == number(s.processed_counts@, user)
    &&& row.dropped == number(s.dropped_counts@, user)
}

proof fn lemma_user_row(row: UserRow, s: DashboardSnapshot, user: Seq<char>)
    requires
        shows_user(row, s, user),
    ensures
        is_user_row(row, s, user),
{
    reveal_strlit("");
    lemma_is_listed(s.vip_list@, user);
}

/// What the row of a user shows.
pub proof fn law_user_row(s: &DashboardSnapshot, user: &str, row: UserRow)
    requires
        call_ensures(user_row, (s, user), row),
    ensures
        is_user_row(row, *s, user@),
{
    lemma_user_row(row, *s, user@);
}

/// The users table has one row for each user, in the order of the users.
pub proof fn law_render_users(d: &TuiDashboard, s: &DashboardSnapshot, r: Vec<UserRow>, i: int)
    requires
        call_ensures(TuiDashboard::render_users, (d, s), r),
    ensures
        r@.len() == s.user_ids@.len(),
        0 <= i < r@.len() ==> is_user_row(r@[i], *s, s.user_ids@[i]@),
{
    if 0 <= i < r@.len() {
        assert(shows_user(r@[i], *s, s.user_ids@[i]@));
        lemma_user_row(r@[i], *s, s.user_ids@[i]@);
    }
}

/// Whether `row` is the row of the queue of `user`.
pub open spec fn is_queue_row(row: QueueRow, s: DashboardSnapshot, user: Seq<char>) -> bool {
    let working = number(s.processing_counts@, user);
    &&& row.user@ == user
    &&& row.waiting == number(s.queues_len@, user) + working
    &&& row.paint == Paint::Magenta <==> is_listed(s.vip_list@, user)
    &&& row.paint == Paint::Cyan <==> !is_listed(s.vip_list@, user) && working > 0
    &&& row.paint == Paint::Green <==> !is_listed(s.vip_list@, user) && working == 0
}

/// What the row of a queue shows.
pub proof fn law_queue_row(s: &DashboardSnapshot, user: &str, row: QueueRow)
    requires
        call_ensures(queue_row, (s, user), row),
    ensures
        is_queue_row(row, *s, user@),
{
    lemma_is_listed(s.vip_list@, user@);
}

/// The table of queues has one row for each user, in the order of the users.
pub proof fn law_render_queues(d: &TuiDashboard, s: &DashboardSnapshot, r: Vec<QueueRow>, i: int)
    requires
        call_ensures(TuiDashboard::render_queues, (d, s), r),
    ensures
        r@.len() == s.user_ids@.len(),
        0 <= i < r@.len() ==> is_queue_row(r@[i], *s, s.user_ids@[i]@),
{
    if 0 <= i < r@.len() {
        assert(shows_queue(r@[i], *s, s.user_ids@[i]@));
        lemma_is_listed(s.vip_list@, s.user_ids@[i]@);
    }
}

/// Whether place `i` of a list holds `value`, as an address or as a user.
pub open spec fn lists_at(items: Seq<BlockedItem>, i: int, is_ip: bool, value: Seq<char>) -> bool {
    0 <= i < items.len() && items[i].is_ip == is_ip && items[i].value@ == value
}

/// Exactly the blocked addresses and users are listed, each once, by value, and an address before a
/// user of the same value.
pub proof fn law_blocked_items(
    s: &DashboardSnapshot,
    r: Vec<BlockedItem>,
    value: Seq<char>,
    i: int,
    j: int,
)
    requires
        call_ensures(blocked_items, (s,), r),
    ensures
        s.blocked_ips@.contains(value) <==> exists|k: int| lists_at(r@, k, true, value),
        s.blocked_users@.contains(value) <==> exists|k: int| lists_at(r@, k, false, value),
        0 <= i < j < r@.len() ==> text_before(r@[i].value@, r@[j].value@) || (r@[i].value@
            == r@[j].value@ && r@[i].is_ip && !r@[j].is_ip),
{
    let items = items_shown(r@);
    assert forall|is_ip: bool| (items.contains(BlockedText { is_ip, value }) <==> exists|k: int|
        lists_at(r@, k, is_ip, value)) by {
        let x = BlockedText { is_ip, value };
        if items.contains(x) {
            let k = items.index_of(x);
            assert(items[k] == r@[k]@);
            assert(lists_at(r@, k, is_ip, value));
        }
        if exists|k: int| lists_at(r@, k, is_ip, value) {
            let k = choose|k: int| lists_at(r@, k, is_ip, value);
            assert(items[k] == x);
        }
    }
    assert(items.contains(BlockedText { is_ip: true, value }) <==> s.blocked_ips@.contains(value));
    assert(items.contains(BlockedText { is_ip: false, value }) <==> s.blocked_users@.contains(
        value,
    ));
    if 0 <= i < j < r@.len() {
        let before = listed_before();
        assert(before(items[i], items[j]));
    }
}

/// The two kinds of blocked items.
pub proof fn law_kind(item: &BlockedItem, r: &'static str)
    requires
        call_ensures(BlockedItem::kind, (item,), r),
    ensures
        item.is_ip ==> r@ == "IP"@,
        !item.is_ip ==> r@ == "USER"@,
{
}

/// The entries of a list that are not `user`.
pub open spec fn others(list: Seq<String>, user: Seq<char>, n: int) -> Seq<Seq<char>>
    decreases n,
{
    if n <= 0 {
        Seq::empty()
    } else if list[n - 1]@ == user {
        others(list, user, n - 1)
    } else {
        others(list, user, n - 1).push(list[n - 1]@)
    }
}

proof fn lemma_others(list: Seq<String>, user: Seq<char>, n: int)
    requires
        0 <= n <= list.len(),
    ensures
        texts(list).take(n).filter(is_other_than(user)) == others(list, user, n),
    decreases n,
{
    reveal(Seq::filter);
    if n > 0 {
        lemma_others(list, user, n - 1);
        lemma_filter_push(texts(list), is_other_than(user), n - 1);
    }
}

/// Whether `after` is `before` with `user` taken out if listed, and put at the end if not.
pub open spec fn is_toggled(before: Seq<String>, after: Seq<String>, user: Seq<char>) -> bool {
    &&& is_listed(before, user) ==> texts(after) == others(before, user, before.len() as int)
    &&& !is_listed(before, user) ==> {
        &&& after.len() == before.len() + 1
        &&& after.last()@ == user
        &&& forall|i: int| 0 <= i < before.len() ==> (#[trigger] after[i])@ == before[i]@
    }
    &&& is_listed(after, user) <==> !is_listed(before, user)
}

proof fn lemma_toggled(before: Seq<String>, after: Seq<String>, user: Seq<char>)
    requires
        texts(after) == toggled(texts(before), user),
    ensures
        is_toggled(before, after, user),
{
    lemma_is_listed(before, user);
    lemma_is_listed(after, user);
    lemma_others(before, user, before.len() as int);
    assert(texts(before).take(before.len() as int) =~= texts(before));
    law_toggle_changes_one(texts(before), user, user);
    if !is_listed(before, user) {
        let long = texts(before).push(user);
        assert(texts(after).len() == long.len());
        assert forall|i: int| 0 <= i < after.len() implies (#[trigger] after[i])@ == long[i] by {
            assert(texts(after)[i] == after[i]@);
        }
    }
}

/// Toggling takes a VIP out of the list, or puts one at its end.
pub proof fn law_toggle_vip(vips: &mut Vec<String>, user: &str)
    requires
        call_ensures(toggle_vip, (vips, user), ()),
    ensures
        is_toggled(old(vips)@, final(vips)@, user@),
{
    lemma_toggled(old(vips)@, final(vips)@, user@);
}

/// A new dashboard shows users, and neither help nor models.
pub proof fn law_new_dashboard(d: TuiDashboard)
    requires
        call_ensures(TuiDashboard::new, (), d),
    ensures
        d.active_panel == CurrentPanel::Users,
        d.table_state is None,
        d.blocked_table_state is None,
        !d.show_help,
        !d.show_models,
{
}

/// In the panel that takes the keys an empty table has no selection, and any other has one, which
/// stays where it was.
pub proof fn law_prepare(d: &mut TuiDashboard, s: &DashboardSnapshot)
    requires
        call_ensures(TuiDashboard::prepare, (d, s), ()),
    ensures
        final(d).active_panel == old(d).active_panel,
        final(d).show_help == old(d).show_help,
        final(d).show_models == old(d).show_models,
        old(d).active_panel == CurrentPanel::Users ==> {
            &&& final(d).blocked_table_state == old(d).blocked_table_state
            &&& final(d).table_state is None <==> s.user_ids@.len() == 0
            &&& s.user_ids@.len() > 0 && old(d).table_state is None ==> final(d).table_state == Some(
                0usize,
            )
            &&& s.user_ids@.len() > 0 && old(d).table_state is Some ==> final(d).table_state
                == old(d).table_state
        },
        old(d).active_panel == CurrentPanel::Blocked ==> {
            let n = s.blocked_ips.members().len() + s.blocked_users.members().len();
            &&& final(d).table_state == old(d).table_state
            &&& final(d).blocked_table_state is None <==> n == 0
            &&& n > 0 && old(d).blocked_table_state is None ==> final(d).blocked_table_state == Some(
                0usize,
            )
            &&& n > 0 && old(d).blocked_table_state is Some ==> final(d).blocked_table_state
                == old(d).blocked_table_state
        },
{
}

/// All numbers of a map together.
pub open spec fn sum(m: crate::strmap::StrMap<usize>) -> int {
    sum_before(m, m.keys().len() as int)
}

/// The totals are the sums over all users.
pub proof fn law_render_stats(d: &TuiDashboard, s: &DashboardSnapshot, r: StatsLine)
    requires
        call_ensures(TuiDashboard::render_stats, (d, s), r),
    ensures
        d.active_panel == CurrentPanel::Users ==> r.panel@ == "USERS"@,
        d.active_panel == CurrentPanel::Blocked ==> r.panel@ == "BLOCKED"@,
        r.waiting == sum(s.queues_len) + sum(s.processing_counts),
        r.done == sum(s.processed_counts),
        r.dropped == sum(s.dropped_counts),
{
    lemma_total(s.queues_len);
    lemma_total(s.processing_counts);
    lemma_total(s.processed_counts);
    lemma_total(s.dropped_counts);
}

/// The totals can be shown when they fit.
pub proof fn law_is_countable(s: &DashboardSnapshot, r: bool)
    requires
        call_ensures(DashboardSnapshot::is_countable, (s,), r),
    ensures
        r <==> sum(s.queues_len) + sum(s.processing_counts) <= usize::MAX && sum(
            s.processed_counts,
        ) <= usize::MAX && sum(s.dropped_counts) <= usize::MAX,
{
    lemma_total(s.queues_len);
    lemma_total(s.processing_counts);
    lemma_total(s.processed_counts);
    lemma_total(s.dropped_counts);
}

/// The requests that wait or are in progress.
pub proof fn law_total_waiting(s: &DashboardSnapshot, r: usize)
    requires
        call_ensures(DashboardSnapshot::total_waiting, (s,), r),
    ensures
        r == sum(s.queues_len) + sum(s.processing_counts),
{
    lemma_total(s.queues_len);
    lemma_total(s.processing_counts);
}

/// The line at which backend `i` begins.
pub open spec fn line_of(backends: Seq<BackendSnapshot>, show_models: bool, i: int) -> int
    decreases i,
{
    if i <= 0 {
        0
    } else if !show_models {
        line_of(backends, show_models, i - 1) + 1
    } else if backends[i - 1].configured_models@.len() == 0 {
        line_of(backends, show_models, i - 1) + 2
    } else {
        line_of(backends, show_models, i - 1) + 1 + backends[i - 1].configured_models@.len()
    }
}

proof fn lemma_lines_of(
    backends: Seq<BackendSnapshot>,
    names: Map<Seq<char>, String>,
    show_models: bool,
    n: int,
    i: int,
)
    requires
        0 <= n <= backends.len(),
    ensures
        ({
            let lines = all_backend_lines(backends.take(n), names, show_models);
            let start = line_of(backends, show_models, i);
            let end = line_of(backends, show_models, i + 1);
            &&& lines.len() == line_of(backends, show_models, n)
            &&& 0 <= i < n ==> 0 <= start < end <= lines.len() && lines.subrange(start, end)
                == backend_lines(backends[i], names, show_models)
        }),
    decreases n,
{
    let lines = all_backend_lines(backends.take(n), names, show_models);
    if n > 0 {
        lemma_lines_of(backends, names, show_models, n - 1, i);
        assert(backends.take(n).drop_last() =~= backends.take(n - 1));
        let some = all_backend_lines(backends.take(n - 1), names, show_models);
        let last = backend_lines(backends[n - 1], names, show_models);
        assert(lines == some + last);
        let start = line_of(backends, show_models, i);
        let end = line_of(backends, show_models, i + 1);
        if i == n - 1 {
            assert(lines.subrange(start, end) =~= last);
        } else if 0 <= i < n - 1 {
            assert(lines.subrange(start, end) =~= some.subrange(start, end));
        }
    }
}

/// Whether `address` is `url` without the scheme before it.
pub open spec fn is_bare(url: Seq<char>, address: Seq<char>) -> bool {
    &&& url == "http://"@ + address || url == "https://"@ + address || url == address
    &&& forall|i: int|
        0 <= i < address.len() ==> !has_prefix(#[trigger] address.skip(i), "http://"@)
            && !has_prefix(address.skip(i), "https://"@)
}

proof fn lemma_bare(url: Seq<char>, address: Seq<char>)
    requires
        is_bare(url, address),
    ensures
        crate::text::without(crate::text::without(url, "http://"@), "https://"@) == address,
{
    reveal_strlit("http://");
    reveal_strlit("https://");
    let http = "http://"@;
    let https = "https://"@;
    lemma_without_absent(address, http);
    lemma_without_absent(address, https);
    let none = Seq::<char>::empty();
    if url == http + address {
        assert(url =~= none + http + address);
        lemma_without(url, http, none, address);
        assert(none + address =~= address);
    } else if url == https + address {
        assert forall|i: int| 0 <= i < url.len() implies !has_prefix(#[trigger] url.skip(i), http) by {
            if i >= 8 {
                assert(url.skip(i) =~= address.skip(i - 8));
            } else if has_prefix(url.skip(i), http) {
                let t = url.skip(i).take(7);
                assert(t == http);
                assert(t[0] == 'h' && t[4] == ':');
                assert(url[i] == t[0]);
                assert(url[i] == https[i]);
                assert(i == 0);
                assert(url[4] == t[4]);
            }
        }
        lemma_without_absent(url, http);
        assert(url =~= none + https + address);
        lemma_without(url, https, none, address);
        assert(none + address =~= address);
    }
}

/// Every backend has a line, with its address and its counters. With models shown, each of its
/// models has a line below it, ticked unless it is known to be unavailable, under its public name.
pub proof fn law_render_backends(
    d: &TuiDashboard,
    s: &DashboardSnapshot,
    r: Vec<BackendLine>,
    i: int,
    k: int,
    address: Seq<char>,
)
    requires
        call_ensures(TuiDashboard::render_backends, (d, s), r),
    ensures
        r@.len() == line_of(s.backends@, d.show_models, s.backends@.len() as int),
        0 <= i < s.backends@.len() ==> {
            let b = s.backends@[i];
            let line = line_of(s.backends@, d.show_models, i);
            &&& r@[line] matches BackendLine::Backend { url, is_online, active, done } && is_online
                == b.is_online && active == b.active_requests && done == b.processed_count && (is_bare(
                b.url@,
                address,
            ) ==> url@ == address)
            &&& d.show_models && b.configured_models@.len() == 0 ==> r@[line + 1] is NoModels
            &&& d.show_models && 0 <= k < b.configured_models@.len() ==> is_model_line(
                r@[line + 1 + k],
                b,
                s.model_public_names@,
                b.configured_models@[k]@,
            )
        },
{
    let backends = s.backends@;
    let names = s.model_public_names@;
    lemma_lines_of(backends, names, d.show_models, backends.len() as int, i);
    assert(backends.take(backends.len() as int) =~= backends);
    if 0 <= i < backends.len() {
        let b = backends[i];
        let line = line_of(backends, d.show_models, i);
        let end = line_of(backends, d.show_models, i + 1);
        let part = shown(r@).subrange(line, end);
        let expected = backend_lines(b, names, d.show_models);
        assert(part == expected);
        assert(part[0] == r@[line]@);
        assert(expected[0] == backend_lines(b, names, false)[0]);
        if is_bare(b.url@, address) {
            lemma_bare(b.url@, address);
        }
        if d.show_models && b.configured_models@.len() == 0 {
            assert(part[1] == r@[line + 1]@);
            assert(expected[1] is NoModels);
        }
        if d.show_models && 0 <= k < b.configured_models@.len() {
            assert(part[1 + k] == r@[line + 1 + k]@);
            let models = texts(b.configured_models@);
            assert(expected[1 + k] == model_lines(models, b.model_status@, names)[k]);
            assert(models[k] == b.configured_models@[k]@);
        }
    }
}

/// Whether `line` is that of a model of `b`.
pub open spec fn is_model_line(
    line: BackendLine,
    b: BackendSnapshot,
    names: Map<Seq<char>, String>,
    model: Seq<char>,
) -> bool {
    line matches BackendLine::Model { text, available } && {
        let name = if names.dom().contains(model) {
            names[model]@
        } else {
            model
        };
        &&& available <==> (b.model_status@.dom().contains(model) ==> b.model_status@[model])
        &&& available ==> text@ == "  ✓ "@ + name
        &&& !available ==> text@ == "  ✗ "@ + name
    }
}

/// Whether `user` is selected in the users table, which takes the keys.
pub open spec fn is_selected(d: TuiDashboard, s: DashboardSnapshot, user: Seq<char>) -> bool {
    &&& d.active_panel == CurrentPanel::Users
    &&& d.table_state is Some
    &&& d.table_state->0 < s.user_ids@.len()
    &&& s.user_ids@[d.table_state->0 as int]@ == user
}

/// Whether a key moves the selection up, or down.
pub open spec fn is_up(key: Key) -> bool {
    key == Key::Up || key == Key::Char('k')
}

pub open spec fn is_down(key: Key) -> bool {
    key == Key::Down || key == Key::Char('j')
}

/// Whether a key goes to the other panel.
pub open spec fn is_switch(key: Key) -> bool {
    key == Key::Tab || key == Key::Char('l') || key == Key::Char('h')
}

/// Whether `after` is one row above `before`, if there is one.
pub open spec fn is_above(before: Option<usize>, after: Option<usize>) -> bool {
    &&& after is Some
    &&& before is Some && before->0 > 0 ==> after->0 == before->0 - 1
    &&& before is None || before->0 == 0 ==> after->0 == 0
}

/// Whether `after` is one row below `before` in a table with `n` rows, if there is one.
pub open spec fn is_below(before: Option<usize>, after: Option<usize>, n: int) -> bool {
    &&& n == 0 ==> after == before
    &&& n > 0 && before is None ==> after == Some(0usize)
    &&& n > 0 && before is Some && before->0 < n - 1 ==> after is Some && after->0 == before->0 + 1
    &&& n > 0 && before is Some && before->0 >= n - 1 ==> after is Some && after->0 == n - 1
}

/// What keys do to the dashboard itself.
pub proof fn law_keys_on_dashboard(
    d: &mut TuiDashboard,
    key: Key,
    s: &mut DashboardSnapshot,
    r: KeyOutcome,
    items: Vec<BlockedItem>,
)
    requires
        call_ensures(TuiDashboard::handle_key, (d, key, s), r),
        call_ensures(blocked_items, (&*old(s),), items),
    ensures
        r.quit <==> key == Key::Esc || key == Key::Char('q'),
        final(d).show_help == (if key == Key::Char('?') {
            !old(d).show_help
        } else {
            old(d).show_help
        }),
        final(d).show_models == (if key == Key::Char('m') {
            !old(d).show_models
        } else {
            old(d).show_models
        }),
        is_switch(key) <==> final(d).active_panel != old(d).active_panel,
        is_up(key) && old(d).active_panel == CurrentPanel::Users ==> is_above(
            old(d).table_state,
            final(d).table_state,
        ),
        is_up(key) && old(d).active_panel == CurrentPanel::Blocked ==> is_above(
            old(d).blocked_table_state,
            final(d).blocked_table_state,
        ),
        is_down(key) && old(d).active_panel == CurrentPanel::Users ==> is_below(
            old(d).table_state,
            final(d).table_state,
            old(s).user_ids@.len() as int,
        ),
        is_down(key) && old(d).active_panel == CurrentPanel::Blocked ==> is_below(
            old(d).blocked_table_state,
            final(d).blocked_table_state,
            items@.len() as int,
        ),
        !is_up(key) && !is_down(key) || old(d).active_panel == CurrentPanel::Blocked
            ==> final(d).table_state == old(d).table_state,
        !is_up(key) && !is_down(key) || old(d).active_panel == CurrentPanel::Users
            ==> final(d).blocked_table_state == old(d).blocked_table_state,
{
    assert(items_shown(items@).len() == items@.len());
    assert(items.len() == items@.len());
    assert(old(s).user_ids.len() == old(s).user_ids@.len());
}

/// What keys ask of the server for the selected user: `p` toggles the VIP, `x` blocks the user, `X`
/// the address, and `u` lifts both.
pub proof fn law_keys_on_users(
    d: &mut TuiDashboard,
    key: Key,
    s: &mut DashboardSnapshot,
    r: KeyOutcome,
    user: Seq<char>,
)
    requires
        call_ensures(TuiDashboard::handle_key, (d, key, s), r),
        is_selected(*old(d), *old(s), user),
    ensures
        ({
            let cmds = r.commands@;
            let known = old(s).user_ips@.dom().contains(user);
            let ip = old(s).user_ips@[user]@;
            &&& key == Key::Char('p') ==> {
                &&& cmds.len() == 1
                &&& cmds[0] matches DashboardCmd::ToggleVip(u) && u@ == user
                &&& is_toggled(old(s).vip_list@, final(s).vip_list@, user)
            }
            &&& key == Key::Char('x') ==> {
                &&& cmds.len() == 1
                &&& cmds[0] matches DashboardCmd::BlockUser(u) && u@ == user
            }
            &&& key == Key::Char('X') && known ==> {
                &&& cmds.len() == 1
                &&& cmds[0] matches DashboardCmd::BlockIp(a) && a@ == ip
            }
            &&& key == Key::Char('X') && !known ==> cmds.len() == 0
            &&& key == Key::Char('u') && known ==> {
                &&& cmds.len() == 2
                &&& cmds[0] matches DashboardCmd::UnblockIp(a) && a@ == ip
                &&& cmds[1] matches DashboardCmd::UnblockUser(u) && u@ == user
            }
            &&& key == Key::Char('u') && !known ==> {
                &&& cmds.len() == 1
                &&& cmds[0] matches DashboardCmd::UnblockUser(u) && u@ == user
            }
            &&& key != Key::Char('p') && key != Key::Char('x') && key != Key::Char('X') && key
                != Key::Char('u') ==> cmds.len() == 0
        }),
{
    let cmds = r.commands@;
    let asked = requests(cmds);
    assert(asked.len() == cmds.len());
    assert forall|i: int| 0 <= i < cmds.len() implies asked[i] == (#[trigger] cmds[i])@ by {}
    if key == Key::Char('p') {
        lemma_toggled(old(s).vip_list@, final(s).vip_list@, user);
    }
    if cmds.len() > 0 {
        assert(asked[0] == cmds[0]@);
    }
    if cmds.len() > 1 {
        assert(asked[1] == cmds[1]@);
    }
}

/// In the table of blocked items only `u` asks anything: to lift the blocking of the selected item.
pub proof fn law_keys_on_blocked(
    d: &mut TuiDashboard,
    key: Key,
    s: &mut DashboardSnapshot,
    r: KeyOutcome,
    items: Vec<BlockedItem>,
)
    requires
        call_ensures(TuiDashboard::handle_key, (d, key, s), r),
        call_ensures(blocked_items, (&*old(s),), items),
        old(d).active_panel == CurrentPanel::Blocked,
    ensures
        ({
            let cmds = r.commands@;
            let row = old(d).blocked_table_state;
            let hit = key == Key::Char('u') && row is Some && row->0 < items@.len();
            &&& cmds.len() == (if hit {
                1int
            } else {
                0int
            })
            &&& hit && items@[row->0 as int].is_ip ==> (cmds[0] matches DashboardCmd::UnblockIp(a)
                && a@ == items@[row->0 as int].value@)
            &&& hit && !items@[row->0 as int].is_ip ==> (cmds[0] matches DashboardCmd::UnblockUser(
                u,
            ) && u@ == items@[row->0 as int].value@)
        }),
{
    let cmds = r.commands@;
    let asked = requests(cmds);
    assert(asked.len() == cmds.len());
    let all = items_shown(items@);
    assert(all.len() == items@.len());
    if let Some(i) = old(d).blocked_table_state {
        if i < items@.len() {
            assert(all[i as int] == items@[i as int]@);
        }
    }
    if cmds.len() > 0 {
        assert(asked[0] == cmds[0]@);
    }
}

/// Keys change nothing of what is shown but the VIP list, and that only by `p` on a selected user.
/// Without a selected user nothing is asked in the users table.
pub proof fn law_keys_on_snapshot(
    d: &mut TuiDashboard,
    key: Key,
    s: &mut DashboardSnapshot,
    r: KeyOutcome,
)
    requires
        call_ensures(TuiDashboard::handle_key, (d, key, s), r),
    ensures
        final(s).queues_len == old(s).queues_len,
        final(s).processing_counts == old(s).processing_counts,
        final(s).processed_counts == old(s).processed_counts,
        final(s).dropped_counts == old(s).dropped_counts,
        final(s).user_ips == old(s).user_ips,
        final(s).blocked_ips == old(s).blocked_ips,
        final(s).blocked_users == old(s).blocked_users,
        final(s).user_ids == old(s).user_ids,
        final(s).backends == old(s).backends,
        final(s).log_lines == old(s).log_lines,
        key != Key::Char('p') ==> texts(final(s).vip_list@) == texts(old(s).vip_list@),
        (forall|user: Seq<char>| !is_selected(*old(d), *old(s), user)) ==> texts(
            final(s).vip_list@,
        ) == texts(old(s).vip_list@),
        (forall|user: Seq<char>| !is_selected(*old(d), *old(s), user)) && old(d).active_panel
            == CurrentPanel::Users ==> r.commands@.len() == 0,
{
    assert(requests(r.commands@).len() == r.commands@.len());
    if let Some(i) = old(d).table_state {
        if old(d).active_panel == CurrentPanel::Users && i < old(s).user_ids@.len() {
            assert(is_selected(*old(d), *old(s), old(s).user_ids@[i as int]@));
        }
    }
}

} // verus!
