//! The dashboard: what it shows, and how it takes keys.

use crate::protocol::{BackendSnapshot, DashboardCmd, DashboardRequest, DashboardSnapshot};
use crate::seqs::{
    lemma_filter_all, lemma_filter_push, lemma_insert_ordered, lemma_one_order, lemma_push_members,
    ordered_by,
};
use crate::strmap::{count_of, StrMap};
use crate::text::{
    joined, lemma_text_before_order, list_contains, remove_all, str_before, str_eq,
    text_before, texts, without,
};
use vstd::prelude::*;
use vstd::string::*;

verus! {

/// The panel that takes the keys.
#[derive(Clone, Copy, Debug, PartialEq, Eq, Structural)]
pub enum CurrentPanel {
    Users,
    Blocked,
}

/// The state of the dashboard itself.
#[derive(Clone, Copy, Debug, PartialEq, Eq, Structural)]
pub struct TuiDashboard {
    /// The selected row of the users table.
    pub table_state: Option<usize>,
    /// The selected row of the table of blocked items.
    pub blocked_table_state: Option<usize>,
    pub active_panel: CurrentPanel,
    pub show_help: bool,
    pub show_models: bool,
}

/// A colour.
#[derive(Clone, Copy, Debug, PartialEq, Eq, Structural)]
pub enum Paint {
    Blue,
    White,
    Yellow,
    Red,
    Gray,
    Green,
    Cyan,
    Magenta,
    DarkGray,
}

/// A key.
#[derive(Clone, Copy, Debug, PartialEq, Eq, Structural)]
pub enum Key {
    Esc,
    Tab,
    Up,
    Down,
    Char(char),
    Other,
}

impl DashboardSnapshot {
    /// Whether the totals that are shown can be computed.
    pub open spec fn countable(&self) -> bool {
        &&& self.queues_len.total() + self.processing_counts.total() <= usize::MAX
        &&& self.processed_counts.total() <= usize::MAX
        &&& self.dropped_counts.total() <= usize::MAX
    }

    /// Whether the totals that are shown can be computed.
    pub fn is_countable(&self) -> (r: bool)
        requires
            self.wf(),
        ensures
            r == self.countable(),
    {
        let waiting = match (
            self.queues_len.checked_total(),
            self.processing_counts.checked_total(),
        ) {
            (Some(queued), Some(processing)) => queued.checked_add(processing),
            _ => None,
        };
        waiting.is_some() && self.processed_counts.checked_total().is_some()
            && self.dropped_counts.checked_total().is_some()
    }

    /// The requests of `user` that wait or are in progress.
    pub open spec fn waiting_for(&self, user: Seq<char>) -> int {
        count_of(self.queues_len@, user) + count_of(self.processing_counts@, user)
    }

    /// The requests of `user` that wait or are in progress.
    fn waiting(&self, user: &str) -> (n: usize)
        requires
            self.wf(),
            self.countable(),
        ensures
            n == self.waiting_for(user@),
    {
        proof {
            self.queues_len.lemma_count_within_total(user@);
            self.processing_counts.lemma_count_within_total(user@);
        }
        self.queues_len.count(user) + self.processing_counts.count(user)
    }

    /// All requests that wait or are in progress.
    pub fn total_waiting(&self) -> (n: usize)
        requires
            self.wf(),
            self.countable(),
        ensures
            n == self.queues_len.total() + self.processing_counts.total(),
    {
        match (self.queues_len.checked_total(), self.processing_counts.checked_total()) {
            (Some(queued), Some(processing)) => queued + processing,
            _ => 0,
        }
    }
}

/// The line of totals.
pub struct StatsLine {
    pub panel: &'static str,
    pub waiting: usize,
    pub done: usize,
    pub dropped: usize,
}

/// One line of the table of backends.
pub enum BackendLine {
    /// A backend: its address without the scheme, and its counters.
    Backend { url: String, is_online: bool, active: usize, done: usize },
    /// No models are configured for it.
    NoModels,
    /// One of its models.
    Model { text: String, available: bool },
}

/// A line of the table of backends, with the text in it.
pub enum ShownLine {
    Backend { url: Seq<char>, is_online: bool, active: usize, done: usize },
    NoModels,
    Model { text: Seq<char>, available: bool },
}

impl View for BackendLine {
    type V = ShownLine;

    open spec fn view(&self) -> ShownLine {
        match self {
            BackendLine::Backend { url, is_online, active, done } => ShownLine::Backend {
                url: url@,
                is_online: *is_online,
                active: *active,
                done: *done,
            },
            BackendLine::NoModels => ShownLine::NoModels,
            BackendLine::Model { text, available } => ShownLine::Model {
                text: text@,
                available: *available,
            },
        }
    }
}

/// The texts of a sequence of lines.
pub open spec fn shown(lines: Seq<BackendLine>) -> Seq<ShownLine> {
    Seq::new(lines.len(), |i: int| lines[i]@)
}

/// The line of a model: a tick or a cross, and its public name where it has one.
pub open spec fn model_line(
    model: Seq<char>,
    status: Map<Seq<char>, bool>,
    names: Map<Seq<char>, String>,
) -> ShownLine {
    let available = !status.dom().contains(model) || status[model];
    let name = if names.dom().contains(model) {
        names[model]@
    } else {
        model
    };
    let mark = if available {
        "  ✓ "@
    } else {
        "  ✗ "@
    };
    ShownLine::Model { text: mark + name, available }
}

/// The lines of the models of a backend.
pub open spec fn model_lines(
    models: Seq<Seq<char>>,
    status: Map<Seq<char>, bool>,
    names: Map<Seq<char>, String>,
) -> Seq<ShownLine> {
    Seq::new(models.len(), |i: int| model_line(models[i], status, names))
}

/// The lines of one backend.
pub open spec fn backend_lines(
    b: BackendSnapshot,
    names: Map<Seq<char>, String>,
    show_models: bool,
) -> Seq<ShownLine> {
    let first = seq![
        ShownLine::Backend {
            url: without(without(b.url@, "http://"@), "https://"@),
            is_online: b.is_online,
            active: b.active_requests,
            done: b.processed_count,
        },
    ];
    if !show_models {
        first
    } else if b.configured_models@.len() == 0 {
        first.push(ShownLine::NoModels)
    } else {
        first + model_lines(texts(b.configured_models@), b.model_status@, names)
    }
}

/// The lines of several backends, one after the other.
pub open spec fn all_backend_lines(
    backends: Seq<BackendSnapshot>,
    names: Map<Seq<char>, String>,
    show_models: bool,
) -> Seq<ShownLine>
    decreases backends.len(),
{
    if backends.len() == 0 {
        Seq::empty()
    } else {
        all_backend_lines(backends.drop_last(), names, show_models) + backend_lines(
            backends.last(),
            names,
            show_models,
        )
    }
}

/// Adds the lines of one backend.
fn push_backend(
    r: &mut Vec<BackendLine>,
    b: &BackendSnapshot,
    names: &StrMap<String>,
    show_models: bool,
)
    requires
        b.wf(),
        names.wf(),
    ensures
        shown(final(r)@) == shown(old(r)@) + backend_lines(*b, names@, show_models),
{
    proof {
        reveal_strlit("http://");
        reveal_strlit("https://");
    }
    let ghost start = shown(r@);
    let bare = remove_all(b.url.as_str(), "http://");
    r.push(
        BackendLine::Backend {
            url: remove_all(bare.as_str(), "https://"),
            is_online: b.is_online,
            active: b.active_requests,
            done: b.processed_count,
        },
    );
    let ghost first = backend_lines(*b, names@, false);
    assert(shown(r@) =~= start + first);
    if show_models {
        if b.configured_models.len() == 0 {
            r.push(BackendLine::NoModels);
            assert(shown(r@) =~= start + first.push(ShownLine::NoModels));
        } else {
            let ghost models = texts(b.configured_models@);
            let ghost lines = model_lines(models, b.model_status@, names@);
            let mut i: usize = 0;
            assert(shown(r@) =~= start + first + lines.take(0));
            while i < b.configured_models.len()
                invariant
                    i <= models.len(),
                    models == texts(b.configured_models@),
                    lines == model_lines(models, b.model_status@, names@),
                    b.wf(),
                    names.wf(),
                    shown(r@) == start + first + lines.take(i as int),
                decreases models.len() - i,
            {
                let model = b.configured_models[i].as_str();
                let available = match b.model_status.get(model) {
                    Some(status) => *status,
                    None => true,
                };
                let name = match names.get(model) {
                    Some(name) => name.as_str(),
                    None => model,
                };
                let mark = if available {
                    "  ✓ "
                } else {
                    "  ✗ "
                };
                let ghost before = shown(r@);
                r.push(BackendLine::Model { text: joined(mark, name), available });
                assert(lines[i as int] == r@.last()@);
                assert(shown(r@) =~= before.push(lines[i as int]));
                assert(shown(r@) =~= start + first + lines.take(i + 1));
                i += 1;
            }
            assert(lines.take(i as int) =~= lines);
            assert(start + first + lines =~= start + (first + lines));
        }
    }
}

/// How a user is marked.
#[derive(Clone, Copy, Debug, PartialEq, Eq, Structural)]
pub enum UserMark {
    Blocked,
    Vip,
    Processing,
    Queued,
    Idle,
}

/// The symbol of a mark.
pub open spec fn symbol_of(mark: UserMark) -> Seq<char> {
    match mark {
        UserMark::Blocked => "✖ "@,
        UserMark::Vip => "★ "@,
        UserMark::Processing => "▶ "@,
        UserMark::Queued => "● "@,
        UserMark::Idle => "○ "@,
    }
}

/// The colour of a mark.
pub open spec fn paint_of(mark: UserMark) -> Paint {
    match mark {
        UserMark::Blocked => Paint::Red,
        UserMark::Vip => Paint::Magenta,
        UserMark::Processing => Paint::Cyan,
        UserMark::Queued => Paint::Green,
        UserMark::Idle => Paint::DarkGray,
    }
}

impl UserMark {
    pub fn symbol(&self) -> (r: &'static str)
        ensures
            r@ == symbol_of(*self),
    {
        match self {
            UserMark::Blocked => "✖ ",
            UserMark::Vip => "★ ",
            UserMark::Processing => "▶ ",
            UserMark::Queued => "● ",
            UserMark::Idle => "○ ",
        }
    }

    pub fn paint(&self) -> (r: Paint)
        ensures
            r == paint_of(*self),
    {
        match self {
            UserMark::Blocked => Paint::Red,
            UserMark::Vip => Paint::Magenta,
            UserMark::Processing => Paint::Cyan,
            UserMark::Queued => Paint::Green,
            UserMark::Idle => Paint::DarkGray,
        }
    }
}

/// One row of the users table.
pub struct UserRow {
    pub user: String,
    pub mark: UserMark,
    pub is_vip: bool,
    pub is_blocked: bool,
    pub ip: String,
    pub waiting: usize,
    pub done: usize,
    pub dropped: usize,
}

/// The address that is shown for `user`; nothing where none is known.
pub open spec fn shown_ip(s: DashboardSnapshot, user: Seq<char>) -> Seq<char> {
    if s.user_ips@.dom().contains(user) {
        s.user_ips@[user]@
    } else {
        ""@
    }
}

/// Whether `user` is shown as blocked: by name or by address.
pub open spec fn shown_blocked(s: DashboardSnapshot, user: Seq<char>) -> bool {
    s.blocked_users@.contains(user) || s.blocked_ips@.contains(shown_ip(s, user))
}

/// How `user` is marked: blocked before VIP before processing before queued.
pub open spec fn mark_of(s: DashboardSnapshot, user: Seq<char>) -> UserMark {
    if shown_blocked(s, user) {
        UserMark::Blocked
    } else if texts(s.vip_list@).contains(user) {
        UserMark::Vip
    } else if count_of(s.processing_counts@, user) > 0 {
        UserMark::Processing
    } else if count_of(s.queues_len@, user) > 0 {
        UserMark::Queued
    } else {
        UserMark::Idle
    }
}

/// Whether `row` shows `user`.
pub open spec fn shows_user(row: UserRow, s: DashboardSnapshot, user: Seq<char>) -> bool {
    &&& row.user@ == user
    &&& row.mark == mark_of(s, user)
    &&& row.is_vip == texts(s.vip_list@).contains(user)
    &&& row.is_blocked == shown_blocked(s, user)
    &&& row.ip@ == shown_ip(s, user)
    &&& row.waiting == s.waiting_for(user)
    &&& row.done == count_of(s.processed_counts@, user)
    &&& row.dropped == count_of(s.dropped_counts@, user)
}

/// The row of one user.
pub fn user_row(s: &DashboardSnapshot, user: &str) -> (row: UserRow)
    requires
        s.wf(),
        s.countable(),
    ensures
        shows_user(row, *s, user@),
{
    let ip = match s.user_ips.get(user) {
        Some(ip) => ip.clone(),
        None => "".to_owned(),
    };
    let is_blocked = s.blocked_users.contains(user) || s.blocked_ips.contains(ip.as_str());
    let is_vip = list_contains(&s.vip_list, user);
    let mark = if is_blocked {
        UserMark::Blocked
    } else if is_vip {
        UserMark::Vip
    } else if s.processing_counts.count(user) > 0 {
        UserMark::Processing
    } else if s.queues_len.count(user) > 0 {
        UserMark::Queued
    } else {
        UserMark::Idle
    };
    UserRow {
        user: user.to_owned(),
        mark,
        is_vip,
        is_blocked,
        ip,
        waiting: s.waiting(user),
        done: s.processed_counts.count(user),
        dropped: s.dropped_counts.count(user),
    }
}

/// One row of the table of queues.
pub struct QueueRow {
    pub user: String,
    pub waiting: usize,
    pub paint: Paint,
}

/// Whether `row` shows the queue of `user`.
pub open spec fn shows_queue(row: QueueRow, s: DashboardSnapshot, user: Seq<char>) -> bool {
    &&& row.user@ == user
    &&& row.waiting == s.waiting_for(user)
    &&& row.paint == if texts(s.vip_list@).contains(user) {
        Paint::Magenta
    } else if count_of(s.processing_counts@, user) > 0 {
        Paint::Cyan
    } else {
        Paint::Green
    }
}

/// The row of the queue of one user.
pub fn queue_row(s: &DashboardSnapshot, user: &str) -> (row: QueueRow)
    requires
        s.wf(),
        s.countable(),
    ensures
        shows_queue(row, *s, user@),
{
    let paint = if list_contains(&s.vip_list, user) {
        Paint::Magenta
    } else if s.processing_counts.count(user) > 0 {
        Paint::Cyan
    } else {
        Paint::Green
    };
    QueueRow { user: user.to_owned(), waiting: s.waiting(user), paint }
}

/// A blocked address or user.
pub struct BlockedItem {
    pub is_ip: bool,
    pub value: String,
}

/// A blocked address (`is_ip`) or user, as text.
pub struct BlockedText {
    pub is_ip: bool,
    pub value: Seq<char>,
}

impl View for BlockedItem {
    type V = BlockedText;

    open spec fn view(&self) -> BlockedText {
        BlockedText { is_ip: self.is_ip, value: self.value@ }
    }
}

impl BlockedItem {
    /// What kind of item it is.
    pub fn kind(&self) -> (r: &'static str)
        ensures
            r@ == if self.is_ip {
                "IP"@
            } else {
                "USER"@
            },
    {
        if self.is_ip {
            "IP"
        } else {
            "USER"
        }
    }
}

/// The texts of a sequence of blocked items.
pub open spec fn items_shown(items: Seq<BlockedItem>) -> Seq<BlockedText> {
    Seq::new(items.len(), |i: int| items[i]@)
}

/// Being listed before: by value, and an address before a user of the same value.
pub open spec fn listed_before() -> spec_fn(BlockedText, BlockedText) -> bool {
    |a: BlockedText, b: BlockedText|
        text_before(a.value, b.value) || a.value == b.value && a.is_ip && !b.is_ip
}

/// What is blocked.
pub open spec fn blocked_set(s: DashboardSnapshot) -> Set<BlockedText> {
    Set::new(
        |x: BlockedText|
            if x.is_ip {
                s.blocked_ips@.contains(x.value)
            } else {
                s.blocked_users@.contains(x.value)
            },
    )
}

/// Whether `items` lists what is blocked, in order.
pub open spec fn is_blocked_list(items: Seq<BlockedText>, s: DashboardSnapshot) -> bool {
    &&& forall|x: BlockedText| #[trigger] items.contains(x) <==> blocked_set(s).contains(x)
    &&& ordered_by(items, listed_before())
}

/// What is blocked, in the order in which it is listed.
pub open spec fn blocked_list(s: DashboardSnapshot) -> Seq<BlockedText> {
    choose|items: Seq<BlockedText>| is_blocked_list(items, s)
}

/// There is only one way to list what is blocked.
pub proof fn law_blocked_list_unique(
    a: Seq<BlockedText>,
    b: Seq<BlockedText>,
    s: DashboardSnapshot,
)
    requires
        is_blocked_list(a, s),
        is_blocked_list(b, s),
    ensures
        a == b,
{
    let before = listed_before();
    assert forall|x: BlockedText, y: BlockedText| !(#[trigger] before(x, y) && before(y, x)) by {
        lemma_text_before_order(x.value, y.value, x.value);
    }
    assert forall|x: BlockedText| a.to_set().contains(x) <==> b.to_set().contains(x) by {
        assert(a.contains(x) <==> blocked_set(s).contains(x));
        assert(b.contains(x) <==> blocked_set(s).contains(x));
    }
    assert(a.to_set() =~= b.to_set());
    lemma_one_order(a, b, before);
}

/// Whether `a` is listed before `b`.
fn item_before(a: &BlockedItem, b: &BlockedItem) -> (r: bool)
    ensures
        r == listed_before()(a@, b@),
{
    str_before(a.value.as_str(), b.value.as_str()) || (str_eq(a.value.as_str(), b.value.as_str())
        && a.is_ip && !b.is_ip)
}

/// Puts an item that is not listed yet in its place.
fn insert_item(items: &mut Vec<BlockedItem>, item: BlockedItem)
    requires
        ordered_by(items_shown(old(items)@), listed_before()),
        !items_shown(old(items)@).contains(item@),
    ensures
        ordered_by(items_shown(final(items)@), listed_before()),
        final(items)@.len() == old(items)@.len() + 1,
        forall|x: BlockedText| #[trigger]
            items_shown(final(items)@).contains(x) <==> items_shown(old(items)@).contains(x) || x
                == item@,
{
    let ghost before = items_shown(items@);
    let ghost lt = listed_before();
    let mut i: usize = 0;
    while i < items.len() && item_before(&items[i], &item)
        invariant
            i <= items@.len(),
            lt == listed_before(),
            forall|j: int| 0 <= j < i ==> lt(#[trigger] items_shown(items@)[j], item@),
        decreases items@.len() - i,
    {
        i += 1;
    }
    let ghost t = item@;
    items.insert(i, item);
    proof {
        assert(items_shown(items@) =~= before.insert(i as int, t));
        assert forall|q: int| i <= q < before.len() implies lt(t, #[trigger] before[q]) by {
            let x = before[i as int];
            assert(before.contains(x));
            lemma_text_before_order(x.value, t.value, t.value);
            if q > i {
                assert(lt(x, before[q]));
                lemma_text_before_order(t.value, x.value, before[q].value);
            }
        }
        lemma_insert_ordered(before, i as int, t, lt);
    }
}

/// What is blocked, in the order in which it is listed.
pub fn blocked_items(s: &DashboardSnapshot) -> (r: Vec<BlockedItem>)
    requires
        s.wf(),
    ensures
        is_blocked_list(items_shown(r@), *s),
        items_shown(r@) == blocked_list(*s),
        r@.len() == s.blocked_ips.members().len() + s.blocked_users.members().len(),
{
    let ghost ips = s.blocked_ips.members();
    let ghost users = s.blocked_users.members();
    proof {
        s.blocked_ips.lemma_members();
        s.blocked_users.lemma_members();
    }
    let mut r: Vec<BlockedItem> = Vec::new();
    let mut i: usize = 0;
    while i < s.blocked_ips.len()
        invariant
            i <= ips.len(),
            ips == s.blocked_ips.members(),
            ips.no_duplicates(),
            r@.len() == i,
            ordered_by(items_shown(r@), listed_before()),
            forall|x: BlockedText| #[trigger]
                items_shown(r@).contains(x) <==> x.is_ip && ips.take(i as int).contains(x.value),
        decreases ips.len() - i,
    {
        let ip = s.blocked_ips.at(i).clone();
        proof {
            assert(ips.take(i + 1) =~= ips.take(i as int).push(ip@));
            lemma_push_members(ips.take(i as int), ip@);
            if ips.take(i as int).contains(ip@) {
                let j = ips.take(i as int).index_of(ip@);
                assert(ips[j] == ip@);
            }
        }
        insert_item(&mut r, BlockedItem { is_ip: true, value: ip });
        i += 1;
    }
    assert(ips.take(i as int) =~= ips);
    let mut k: usize = 0;
    while k < s.blocked_users.len()
        invariant
            k <= users.len(),
            users == s.blocked_users.members(),
            users.no_duplicates(),
            r@.len() == ips.len() + k,
            ordered_by(items_shown(r@), listed_before()),
            forall|x: BlockedText| #[trigger]
                items_shown(r@).contains(x) <==> if x.is_ip {
                    ips.contains(x.value)
                } else {
                    users.take(k as int).contains(x.value)
                },
        decreases users.len() - k,
    {
        let user = s.blocked_users.at(k).clone();
        proof {
            assert(users.take(k + 1) =~= users.take(k as int).push(user@));
            lemma_push_members(users.take(k as int), user@);
            if users.take(k as int).contains(user@) {
                let j = users.take(k as int).index_of(user@);
                assert(users[j] == user@);
            }
        }
        insert_item(&mut r, BlockedItem { is_ip: false, value: user });
        k += 1;
    }
    proof {
        assert(users.take(k as int) =~= users);
        assert(is_blocked_list(items_shown(r@), *s));
        law_blocked_list_unique(items_shown(r@), blocked_list(*s), *s);
    }
    r
}

/// The colour of log lines of a level.
pub open spec fn paint_of_level(level: Seq<char>) -> Paint {
    if level == "DEBUG"@ {
        Paint::Blue
    } else if level == "INFO"@ {
        Paint::White
    } else if level == "WARN"@ {
        Paint::Yellow
    } else if level == "ERROR"@ {
        Paint::Red
    } else {
        Paint::Gray
    }
}

/// The colour of log lines of a level.
pub fn level_paint(level: &str) -> (r: Paint)
    ensures
        r == paint_of_level(level@),
{
    if str_eq(level, "DEBUG") {
        Paint::Blue
    } else if str_eq(level, "INFO") {
        Paint::White
    } else if str_eq(level, "WARN") {
        Paint::Yellow
    } else if str_eq(level, "ERROR") {
        Paint::Red
    } else {
        Paint::Gray
    }
}

/// The user in row `i` of the users table.
pub open spec fn user_at(s: DashboardSnapshot, row: Option<usize>) -> Option<Seq<char>> {
    match row {
        Some(i) if i < s.user_ids@.len() => Some(s.user_ids@[i as int]@),
        _ => None,
    }
}

/// Not being `user`.
pub open spec fn is_other_than(user: Seq<char>) -> spec_fn(Seq<char>) -> bool {
    |u: Seq<char>| u != user
}

/// The VIP list with `user` taken out if listed, and put at the end if not.
pub open spec fn toggled(vips: Seq<Seq<char>>, user: Seq<char>) -> Seq<Seq<char>> {
    if vips.contains(user) {
        vips.filter(is_other_than(user))
    } else {
        vips.push(user)
    }
}

/// Takes `user` out of the VIP list if listed, and puts it at the end if not.
pub fn toggle_vip(vips: &mut Vec<String>, user: &str)
    ensures
        texts(final(vips)@) == toggled(texts(old(vips)@), user@),
{
    if list_contains(vips, user) {
        let ghost all = texts(vips@);
        let ghost p = is_other_than(user@);
        let mut kept: Vec<String> = Vec::new();
        let mut i: usize = 0;
        proof {
            reveal(Seq::filter);
            assert(texts(kept@) =~= all.take(0).filter(p));
        }
        while i < vips.len()
            invariant
                i <= vips@.len(),
                all == texts(vips@),
                *vips == *old(vips),
                p == is_other_than(user@),
                texts(kept@) == all.take(i as int).filter(p),
            decreases vips@.len() - i,
        {
            proof {
                lemma_filter_push(all, p, i as int);
            }
            let ghost before = texts(kept@);
            if !str_eq(vips[i].as_str(), user) {
                kept.push(vips[i].clone());
                assert(texts(kept@) =~= before.push(all[i as int]));
            }
            i += 1;
        }
        assert(all.take(i as int) =~= all);
        *vips = kept;
    } else {
        vips.push(user.to_owned());
        assert(texts(vips@) =~= texts(old(vips)@).push(user@));
    }
}

/// One row up, not beyond the first.
pub open spec fn row_above(row: Option<usize>) -> Option<usize> {
    match row {
        Some(i) if i > 0 => Some((i - 1) as usize),
        _ => Some(0),
    }
}

/// One row down, not beyond the last of `n` rows; the first row when none is selected. An empty
/// table keeps its selection.
pub open spec fn row_below(row: Option<usize>, n: int) -> Option<usize> {
    if n == 0 {
        row
    } else {
        match row {
            Some(i) => if i + 1 <= n - 1 {
                Some((i + 1) as usize)
            } else {
                Some((n - 1) as usize)
            },
            None => Some(0),
        }
    }
}

/// One row up, not beyond the first.
fn move_up(row: Option<usize>) -> (r: Option<usize>)
    ensures
        r == row_above(row),
{
    match row {
        Some(i) => Some(i.saturating_sub(1)),
        None => Some(0),
    }
}

/// One row down, not beyond the last of `n` rows.
fn move_down(row: Option<usize>, n: usize) -> (r: Option<usize>)
    ensures
        r == row_below(row, n as int),
{
    if n == 0 {
        row
    } else {
        match row {
            Some(i) => if i < n - 1 {
                Some(i + 1)
            } else {
                Some(n - 1)
            },
            None => Some(0),
        }
    }
}

/// A selection that suits a table: none in an empty table, the first row where none is selected.
pub open spec fn suited(row: Option<usize>, is_empty: bool) -> Option<usize> {
    if is_empty {
        None
    } else {
        match row {
            Some(i) => Some(i),
            None => Some(0),
        }
    }
}

/// A selection that suits a table.
fn suit(row: Option<usize>, is_empty: bool) -> (r: Option<usize>)
    ensures
        r == suited(row, is_empty),
{
    if is_empty {
        None
    } else {
        match row {
            Some(i) => Some(i),
            None => Some(0),
        }
    }
}

/// The requests of a sequence of commands.
pub open spec fn requests(cmds: Seq<DashboardCmd>) -> Seq<DashboardRequest> {
    Seq::new(cmds.len(), |i: int| cmds[i]@)
}

/// What the server is asked when a key is pressed.
pub open spec fn requests_for(
    d: TuiDashboard,
    key: Key,
    s: DashboardSnapshot,
) -> Seq<DashboardRequest> {
    match (d.active_panel, key, user_at(s, d.table_state)) {
        (CurrentPanel::Users, Key::Char('p'), Some(user)) => seq![
            DashboardRequest::ToggleVip(user),
        ],
        (CurrentPanel::Users, Key::Char('x'), Some(user)) => seq![
            DashboardRequest::BlockUser(user),
        ],
        (CurrentPanel::Users, Key::Char('X'), Some(user)) => if s.user_ips@.dom().contains(user) {
            seq![DashboardRequest::BlockIp(s.user_ips@[user]@)]
        } else {
            Seq::empty()
        },
        (CurrentPanel::Users, Key::Char('u'), Some(user)) => if s.user_ips@.dom().contains(user) {
            seq![
                DashboardRequest::UnblockIp(s.user_ips@[user]@),
                DashboardRequest::UnblockUser(user),
            ]
        } else {
            seq![DashboardRequest::UnblockUser(user)]
        },
        (CurrentPanel::Blocked, Key::Char('u'), _) => match d.blocked_table_state {
            Some(i) if i < blocked_list(s).len() => if blocked_list(s)[i as int].is_ip {
                seq![DashboardRequest::UnblockIp(blocked_list(s)[i as int].value)]
            } else {
                seq![DashboardRequest::UnblockUser(blocked_list(s)[i as int].value)]
            },
            _ => Seq::empty(),
        },
        _ => Seq::empty(),
    }
}

/// The dashboard after a key.
pub open spec fn dashboard_after(
    d: TuiDashboard,
    key: Key,
    s: DashboardSnapshot,
) -> TuiDashboard {
    match key {
        Key::Char('?') => TuiDashboard { show_help: !d.show_help, ..d },
        Key::Char('m') => TuiDashboard { show_models: !d.show_models, ..d },
        Key::Tab | Key::Char('l') | Key::Char('h') => TuiDashboard {
            active_panel: match d.active_panel {
                CurrentPanel::Users => CurrentPanel::Blocked,
                CurrentPanel::Blocked => CurrentPanel::Users,
            },
            ..d
        },
        Key::Up | Key::Char('k') => match d.active_panel {
            CurrentPanel::Users => TuiDashboard { table_state: row_above(d.table_state), ..d },
            CurrentPanel::Blocked => TuiDashboard {
                blocked_table_state: row_above(d.blocked_table_state),
                ..d
            },
        },
        Key::Down | Key::Char('j') => match d.active_panel {
            CurrentPanel::Users => TuiDashboard {
                table_state: row_below(d.table_state, s.user_ids@.len() as int),
                ..d
            },
            CurrentPanel::Blocked => TuiDashboard {
                blocked_table_state: row_below(
                    d.blocked_table_state,
                    blocked_list(s).len() as int,
                ),
                ..d
            },
        },
        _ => d,
    }
}

/// The VIP list that is shown after a key.
pub open spec fn vips_after(d: TuiDashboard, key: Key, s: DashboardSnapshot) -> Seq<Seq<char>> {
    match (d.active_panel, key, user_at(s, d.table_state)) {
        (CurrentPanel::Users, Key::Char('p'), Some(user)) => toggled(texts(s.vip_list@), user),
        _ => texts(s.vip_list@),
    }
}

/// Whether a key ends the dashboard.
pub open spec fn is_quit(key: Key) -> bool {
    key == Key::Esc || key == Key::Char('q')
}

/// What a key asks for.
pub struct KeyOutcome {
    pub quit: bool,
    pub commands: Vec<DashboardCmd>,
}

impl TuiDashboard {
    pub fn new() -> (r: Self)
        ensures
            r == (TuiDashboard {
                table_state: None,
                blocked_table_state: None,
                active_panel: CurrentPanel::Users,
                show_help: false,
                show_models: false,
            }),
    {
        TuiDashboard {
            table_state: None,
            blocked_table_state: None,
            active_panel: CurrentPanel::Users,
            show_help: false,
            show_models: false,
        }
    }

    /// Makes the selection in the active panel suit what is about to be shown.
    pub fn prepare(&mut self, snapshot: &DashboardSnapshot)
        ensures
            *final(self) == match old(self).active_panel {
                CurrentPanel::Users => TuiDashboard {
                    table_state: suited(old(self).table_state, snapshot.user_ids@.len() == 0),
                    ..*old(self)
                },
                CurrentPanel::Blocked => TuiDashboard {
                    blocked_table_state: suited(
                        old(self).blocked_table_state,
                        snapshot.blocked_ips.members().len() == 0
                            && snapshot.blocked_users.members().len() == 0,
                    ),
                    ..*old(self)
                },
            },
    {
        match self.active_panel {
            CurrentPanel::Users => {
                self.table_state = suit(self.table_state, snapshot.user_ids.len() == 0);
            },
            CurrentPanel::Blocked => {
                self.blocked_table_state = suit(
                    self.blocked_table_state,
                    snapshot.blocked_ips.len() == 0 && snapshot.blocked_users.len() == 0,
                );
            },
        }
    }

    /// The line of totals.
    pub fn render_stats(&self, snapshot: &DashboardSnapshot) -> (r: StatsLine)
        requires
            snapshot.wf(),
            snapshot.countable(),
        ensures
            r.panel@ == match self.active_panel {
                CurrentPanel::Users => "USERS"@,
                CurrentPanel::Blocked => "BLOCKED"@,
            },
            r.waiting == snapshot.queues_len.total() + snapshot.processing_counts.total(),
            r.done == snapshot.processed_counts.total(),
            r.dropped == snapshot.dropped_counts.total(),
    {
        let panel = match self.active_panel {
            CurrentPanel::Users => "USERS",
            CurrentPanel::Blocked => "BLOCKED",
        };
        let done: usize = match snapshot.processed_counts.checked_total() {
            Some(n) => n,
            None => 0,
        };
        let dropped: usize = match snapshot.dropped_counts.checked_total() {
            Some(n) => n,
            None => 0,
        };
        StatsLine { panel, waiting: snapshot.total_waiting(), done, dropped }
    }

    /// The lines of the table of backends.
    pub fn render_backends(&self, snapshot: &DashboardSnapshot) -> (r: Vec<BackendLine>)
        requires
            snapshot.wf(),
        ensures
            shown(r@) == all_backend_lines(
                snapshot.backends@,
                snapshot.model_public_names@,
                self.show_models,
            ),
    {
        let ghost backends = snapshot.backends@;
        let ghost names = snapshot.model_public_names@;
        let mut r: Vec<BackendLine> = Vec::new();
        let mut i: usize = 0;
        assert(shown(r@) =~= all_backend_lines(backends.take(0), names, self.show_models));
        while i < snapshot.backends.len()
            invariant
                i <= backends.len(),
                backends == snapshot.backends@,
                names == snapshot.model_public_names@,
                snapshot.wf(),
                shown(r@) == all_backend_lines(backends.take(i as int), names, self.show_models),
            decreases backends.len() - i,
        {
            push_backend(
                &mut r,
                &snapshot.backends[i],
                &snapshot.model_public_names,
                self.show_models,
            );
            proof {
                let long = backends.take(i + 1);
                assert(long.drop_last() =~= backends.take(i as int));
                assert(long.last() == backends[i as int]);
            }
            i += 1;
        }
        assert(backends.take(i as int) =~= backends);
        r
    }

    /// The rows of the users table.
    pub fn render_users(&self, snapshot: &DashboardSnapshot) -> (r: Vec<UserRow>)
        requires
            snapshot.wf(),
            snapshot.countable(),
        ensures
            r@.len() == snapshot.user_ids@.len(),
            forall|i: int|
                0 <= i < r@.len() ==> shows_user(
                    #[trigger] r@[i],
                    *snapshot,
                    snapshot.user_ids@[i]@,
                ),
    {
        let mut r: Vec<UserRow> = Vec::new();
        let mut i: usize = 0;
        while i < snapshot.user_ids.len()
            invariant
                i <= snapshot.user_ids@.len(),
                snapshot.wf(),
                snapshot.countable(),
                r@.len() == i,
                forall|j: int|
                    0 <= j < i ==> shows_user(#[trigger] r@[j], *snapshot, snapshot.user_ids@[j]@),
            decreases snapshot.user_ids@.len() - i,
        {
            r.push(user_row(snapshot, snapshot.user_ids[i].as_str()));
            i += 1;
        }
        r
    }

    /// The rows of the table of queues.
    pub fn render_queues(&self, snapshot: &DashboardSnapshot) -> (r: Vec<QueueRow>)
        requires
            snapshot.wf(),
            snapshot.countable(),
        ensures
            r@.len() == snapshot.user_ids@.len(),
            forall|i: int|
                0 <= i < r@.len() ==> shows_queue(
                    #[trigger] r@[i],
                    *snapshot,
                    snapshot.user_ids@[i]@,
                ),
    {
        let mut r: Vec<QueueRow> = Vec::new();
        let mut i: usize = 0;
        while i < snapshot.user_ids.len()
            invariant
                i <= snapshot.user_ids@.len(),
                snapshot.wf(),
                snapshot.countable(),
                r@.len() == i,
                forall|j: int|
                    0 <= j < i ==> shows_queue(#[trigger] r@[j], *snapshot, snapshot.user_ids@[j]@),
            decreases snapshot.user_ids@.len() - i,
        {
            r.push(queue_row(snapshot, snapshot.user_ids[i].as_str()));
            i += 1;
        }
        r
    }

    /// The user in the selected row of the users table, while that panel takes the keys.
    fn selected_user<'a>(&self, s: &'a DashboardSnapshot) -> (r: Option<&'a str>)
        ensures
            r is Some <==> self.active_panel == CurrentPanel::Users && user_at(
                *s,
                self.table_state,
            ) is Some,
            r is Some ==> Some(r->0@) == user_at(*s, self.table_state),
    {
        match (self.active_panel, self.table_state) {
            (CurrentPanel::Users, Some(i)) => if i < s.user_ids.len() {
                Some(s.user_ids[i].as_str())
            } else {
                None
            },
            _ => None,
        }
    }

    /// The commands that lift the blocking of what is selected.
    fn unblock_commands(&self, s: &DashboardSnapshot) -> (r: Vec<DashboardCmd>)
        requires
            s.wf(),
        ensures
            requests(r@) == requests_for(*self, Key::Char('u'), *s),
    {
        let mut r: Vec<DashboardCmd> = Vec::new();
        match self.active_panel {
            CurrentPanel::Blocked => {
                if let Some(i) = self.blocked_table_state {
                    let items = blocked_items(s);
                    if i < items.len() {
                        assert(items_shown(items@)[i as int] == items@[i as int]@);
                        let value = items[i].value.clone();
                        if items[i].is_ip {
                            r.push(DashboardCmd::UnblockIp(value));
                        } else {
                            r.push(DashboardCmd::UnblockUser(value));
                        }
                    }
                }
            },
            CurrentPanel::Users => {
                if let Some(user) = self.selected_user(s) {
                    if let Some(ip) = s.user_ips.get(user) {
                        r.push(DashboardCmd::UnblockIp(ip.clone()));
                    }
                    r.push(DashboardCmd::UnblockUser(user.to_owned()));
                }
            },
        }
        assert(requests(r@) =~= requests_for(*self, Key::Char('u'), *s));
        r
    }

    /// Takes a key: changes the dashboard, and tells what to ask of the server. The VIP list that
    /// is shown follows at once.
    pub fn handle_key(&mut self, key: Key, snapshot: &mut DashboardSnapshot) -> (r: KeyOutcome)
        requires
            old(snapshot).wf(),
        ensures
            final(snapshot).wf(),
            r.quit == is_quit(key),
            requests(r.commands@) == requests_for(*old(self), key, *old(snapshot)),
            *final(self) == dashboard_after(*old(self), key, *old(snapshot)),
            texts(final(snapshot).vip_list@) == vips_after(*old(self), key, *old(snapshot)),
            *final(snapshot) == (DashboardSnapshot {
                vip_list: final(snapshot).vip_list,
                ..*old(snapshot)
            }),
    {
        let mut commands: Vec<DashboardCmd> = Vec::new();
        let mut quit = false;
        match key {
            Key::Esc | Key::Char('q') => {
                quit = true;
            },
            Key::Char('?') => {
                self.show_help = !self.show_help;
            },
            Key::Char('m') => {
                self.show_models = !self.show_models;
            },
            Key::Tab | Key::Char('l') | Key::Char('h') => {
                self.active_panel = match self.active_panel {
                    CurrentPanel::Users => CurrentPanel::Blocked,
                    CurrentPanel::Blocked => CurrentPanel::Users,
                };
            },
            Key::Char('p') => {
                let user = match self.selected_user(snapshot) {
                    Some(user) => Some(user.to_owned()),
                    None => None,
                };
                if let Some(user) = user {
                    toggle_vip(&mut snapshot.vip_list, user.as_str());
                    commands.push(DashboardCmd::ToggleVip(user));
                }
            },
            Key::Char('x') => {
                if let Some(user) = self.selected_user(snapshot) {
                    commands.push(DashboardCmd::BlockUser(user.to_owned()));
                }
            },
            Key::Char('X') => {
                if let Some(user) = self.selected_user(snapshot) {
                    if let Some(ip) = snapshot.user_ips.get(user) {
                        commands.push(DashboardCmd::BlockIp(ip.clone()));
                    }
                }
            },
            Key::Char('u') => {
                commands = self.unblock_commands(snapshot);
            },
            Key::Up | Key::Char('k') => match self.active_panel {
                CurrentPanel::Users => {
                    self.table_state = move_up(self.table_state);
                },
                CurrentPanel::Blocked => {
                    self.blocked_table_state = move_up(self.blocked_table_state);
                },
            },
            Key::Down | Key::Char('j') => match self.active_panel {
                CurrentPanel::Users => {
                    self.table_state = move_down(self.table_state, snapshot.user_ids.len());
                },
                CurrentPanel::Blocked => {
                    let n: usize = blocked_items(snapshot).len();
                    self.blocked_table_state = move_down(self.blocked_table_state, n);
                },
            },
            _ => {},
        }
        assert(requests(commands@) =~= requests_for(*old(self), key, *old(snapshot)));
        KeyOutcome { quit, commands }
    }
}

/// The level of a log line, filled up to five characters, and a space.
pub open spec fn level_column(level: Seq<char>) -> Seq<char> {
    let gap = if level.len() < 5 {
        (5 - level.len()) as nat
    } else {
        0
    };
    level + Seq::new(gap + 1, |i: int| ' ')
}

/// The level of a log line, filled up to five characters, and a space.
pub fn level_text(level: &str) -> (r: String)
    ensures
        r@ == level_column(level@),
{
    proof {
        reveal_strlit(" ");
    }
    let mut r = level.to_owned();
    let mut n: usize = level.unicode_len();
    while n < 5
        invariant
            " "@ =~= seq![' '],
            level@.len() <= n,
            n <= 5 || n == level@.len(),
            r@ =~= level@ + Seq::new((n - level@.len()) as nat, |i: int| ' '),
        decreases 5 - n,
    {
        r.append(" ");
        n += 1;
    }
    r.append(" ");
    assert(r@ =~= level_column(level@));
    r
}

/// Toggling changes whether the user is a VIP, and nobody else.
pub proof fn law_toggle_changes_one(vips: Seq<Seq<char>>, user: Seq<char>, other: Seq<char>)
    ensures
        toggled(vips, user).contains(user) <==> !vips.contains(user),
        other != user ==> (toggled(vips, user).contains(other) <==> vips.contains(other)),
{
    let p = is_other_than(user);
    if vips.contains(user) {
        if vips.contains(other) && other != user {
            vips.lemma_filter_contains(p, vips.index_of(other));
        }
        if vips.filter(p).contains(other) {
            vips.lemma_filter_contains_rev(p, other);
        }
        if vips.filter(p).contains(user) {
            let i = vips.filter(p).index_of(user);
            vips.lemma_filter_pred(p, i);
        }
    } else {
        lemma_push_members(vips, user);
    }
}

/// A user made a VIP and unmade again leaves the list as it was.
pub proof fn law_toggle_twice(vips: Seq<Seq<char>>, user: Seq<char>)
    requires
        !vips.contains(user),
    ensures
        toggled(toggled(vips, user), user) == vips,
{
    reveal(Seq::filter);
    let p = is_other_than(user);
    lemma_push_members(vips, user);
    assert(vips.push(user).drop_last() =~= vips);
    assert forall|i: int| 0 <= i < vips.len() implies p(#[trigger] vips[i]) by {
        assert(vips.contains(vips[i]));
    }
    lemma_filter_all(vips, p);
}

/// Moving down stays inside the table, moving up after moving down inside it comes back.
pub proof fn law_selection_stays_inside(row: Option<usize>, n: int)
    requires
        0 < n <= usize::MAX,
    ensures
        row_below(row, n) matches Some(i) && i < n,
        row matches Some(i) && i + 1 < n ==> row_above(row_below(row, n)) == row,
{
}

} // verus!
