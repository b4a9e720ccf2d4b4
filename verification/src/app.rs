//! The state of the interactive application and the rules that change it.

use std::collections::HashMap;
use vstd::prelude::*;
use crate::config::Config;
use crate::deletion::{
    account, after_removal, apply_removal, available_scopes, feasible_scopes, gone_paths,
    kept_paths, plan_delete, planned_hashes, planned_paths, queue_hashes, queued, DeletionOutcome,
    DeletionPlan,
};
use crate::grouping::{group_by_downloads, group_by_media, group_views, is_grouping, Group};
use crate::qbittorrent::{enrich, enriched, torrents_of, TorrentInfo};
use crate::scanner::{records, FileNode, ScanEvent};
use crate::sorting::{arrange, is_listing, listing, shown_mask};

verus! {

broadcast use vstd::std_specs::hash::group_hash_axioms;

/// Which groups are listed.
#[derive(Debug, Clone, Copy, PartialEq, Eq, Structural)]
pub enum FilterMode {
    /// Every group.
    All,
    /// Groups with a record that is missing on one side.
    Orphans,
    /// Groups whose records are all present on both sides.
    Hardlinked,
}

impl FilterMode {
    /// The mode that follows this one: all, orphans, hardlinked, and round again.
    pub fn next(self) -> (next: Self)
        ensures
            next == match self {
                FilterMode::All => FilterMode::Orphans,
                FilterMode::Orphans => FilterMode::Hardlinked,
                FilterMode::Hardlinked => FilterMode::All,
            },
    {
        match self {
            FilterMode::All => FilterMode::Orphans,
            FilterMode::Orphans => FilterMode::Hardlinked,
            FilterMode::Hardlinked => FilterMode::All,
        }
    }
}

/// What the listed groups are sorted by.
#[derive(Debug, Clone, Copy, PartialEq, Eq, Structural)]
pub enum SortBy {
    Name,
    Size,
    DateAdded,
}

impl SortBy {
    /// The key that follows this one: name, size, date, and round again.
    pub fn next(self) -> (next: Self)
        ensures
            next == match self {
                SortBy::Name => SortBy::Size,
                SortBy::Size => SortBy::DateAdded,
                SortBy::DateAdded => SortBy::Name,
            },
    {
        match self {
            SortBy::Name => SortBy::Size,
            SortBy::Size => SortBy::DateAdded,
            SortBy::DateAdded => SortBy::Name,
        }
    }
}

#[derive(Debug, Clone, Copy, PartialEq, Eq, Structural)]
pub enum SortOrder {
    Ascending,
    Descending,
}

impl SortOrder {
    /// The other order.
    pub fn toggle(self) -> (other: Self)
        ensures
            other == match self {
                SortOrder::Ascending => SortOrder::Descending,
                SortOrder::Descending => SortOrder::Ascending,
            },
    {
        match self {
            SortOrder::Ascending => SortOrder::Descending,
            SortOrder::Descending => SortOrder::Ascending,
        }
    }
}

/// How much of a group a deletion removes.
#[derive(Debug, Clone, Copy, PartialEq, Eq, Structural)]
pub enum DeleteScope {
    /// The downloads side only.
    Downloads,
    /// The media side only.
    Media,
    /// Both sides.
    All,
}

/// `i` is the first position of `x` in `s`.
pub open spec fn first_at<A>(s: Seq<A>, x: A, i: int) -> bool {
    &&& 0 <= i < s.len()
    &&& s[i] == x
    &&& forall|j: int| 0 <= j < i ==> s[j] != x
}

/// The first position of `x` in `s`, or 0 where `s` does not hold `x`.
pub open spec fn position_or_zero<A>(s: Seq<A>, x: A) -> int {
    if s.contains(x) {
        choose|i: int| first_at(s, x, i)
    } else {
        0
    }
}

/// The first position of `scope` among `available`, or 0 where it is not there.
fn scope_position(available: &[DeleteScope], scope: DeleteScope) -> (at: usize)
    ensures
        at == position_or_zero(available@, scope),
        available@.len() > 0 ==> at < available@.len(),
{
    let mut i: usize = 0;
    while i < available.len()
        invariant
            0 <= i <= available.len(),
            forall|j: int| 0 <= j < i ==> available@[j] != scope,
        decreases available.len() - i,
    {
        if available[i] == scope {
            assert(first_at(available@, scope, i as int));
            let ghost c = choose|c: int| first_at(available@, scope, c);
            assert(first_at(available@, scope, c));
            return i;
        }
        i += 1;
    }
    0
}

/// The scope that follows `scope` among the available scopes, the first
/// following the last. A scope that is not available counts as the first. Where
/// no scope is available, the result is `scope`.
pub open spec fn scope_after(scope: DeleteScope, available: Seq<DeleteScope>) -> DeleteScope {
    if available.len() == 0 {
        scope
    } else {
        available[(position_or_zero(available, scope) + 1) % (available.len() as int)]
    }
}

/// The scope that precedes `scope` among the available scopes, the last
/// preceding the first. A scope that is not available counts as the first. Where
/// no scope is available, the result is `scope`.
pub open spec fn scope_before(scope: DeleteScope, available: Seq<DeleteScope>) -> DeleteScope {
    if available.len() == 0 {
        scope
    } else if position_or_zero(available, scope) == 0 {
        available[available.len() - 1]
    } else {
        available[position_or_zero(available, scope) - 1]
    }
}

impl DeleteScope {
    /// The scope that follows this one among the available scopes.
    pub fn next(&self, available: &[DeleteScope]) -> (next: Self)
        ensures
            next == scope_after(*self, available@),
    {
        if available.len() == 0 {
            return *self;
        }
        let at = scope_position(available, *self);
        available[(at + 1) % available.len()]
    }

    /// The scope that precedes this one among the available scopes.
    pub fn prev(&self, available: &[DeleteScope]) -> (prev: Self)
        ensures
            prev == scope_before(*self, available@),
    {
        if available.len() == 0 {
            return *self;
        }
        let at = scope_position(available, *self);
        if at == 0 {
            available[available.len() - 1]
        } else {
            available[at - 1]
        }
    }
}

/// One view of the records.
#[derive(Debug, Clone, Copy, PartialEq, Eq, Structural)]
pub enum Tab {
    /// The groups of all media roots together.
    Media,
    /// The groups of one media root, by its position among the configured roots.
    MediaFolder(usize),
    /// The groups of the downloads root.
    Downloads,
}

/// What the application is doing.
#[derive(Debug)]
pub enum AppState {
    Ready,
    /// A scan is running; so many files were reported so far.
    Scanning { processed: usize },
    /// The last scan failed with this message.
    Error(String),
}

/// A key that the user pressed.
#[derive(Debug, Clone, Copy, PartialEq, Eq, Structural)]
pub enum Key {
    Esc,
    Char(char),
    Backspace,
    Tab,
    Down,
    Up,
    Enter,
    /// Any other key.
    Other,
}

/// What the caller is to do after a key was pressed.
#[derive(Debug)]
pub enum Action {
    Nothing,
    /// Start a scan; the application is scanning already.
    Rescan,
    /// Remove the planned paths from disk, then report with
    /// [`App::execute_delete`] which of them are gone.
    Delete(DeletionPlan),
}

/// The tabs for a configuration with `media_dirs` media roots: the media tab, one
/// tab for each media root where there is more than one, and the downloads tab.
pub open spec fn tabs_for(media_dirs: nat) -> Seq<Tab> {
    if media_dirs > 1 {
        seq![Tab::Media] + Seq::new(media_dirs, |i: int| Tab::MediaFolder(i as usize))
            + seq![Tab::Downloads]
    } else {
        seq![Tab::Media, Tab::Downloads]
    }
}

/// The application: what is configured, the records of the last scan, the groups
/// derived from them for each view, and what the user has selected.
pub struct App {
    pub config: Config,
    pub running: bool,
    pub active_tab: Tab,
    /// The groups of the media tab, once derived.
    pub media_groups: Option<Vec<Group>>,
    /// The groups of each media root's tab, once derived.
    pub folder_groups: HashMap<usize, Vec<Group>>,
    /// The groups of the downloads tab, once derived.
    pub download_groups: Option<Vec<Group>>,
    pub nodes: Vec<FileNode>,
    pub selected_index: usize,
    pub show_details: bool,
    pub show_confirmation: bool,
    pub delete_scope: DeleteScope,
    pub available_scopes: Vec<DeleteScope>,
    pub search_query: String,
    pub search_active: bool,
    pub sort_by: SortBy,
    pub sort_order: SortOrder,
    pub filter: FilterMode,
    /// The torrents whose removal is still to be asked of the torrent service.
    pub pending_qbit_deletions: Vec<String>,
    pub state: AppState,
    pub torrents: Vec<TorrentInfo>,
}

/// The first position of `tab` among `tabs`.
fn tab_position(tabs: &Vec<Tab>, tab: Tab) -> (at: Option<usize>)
    ensures
        match at {
            Some(i) => i < tabs@.len() && first_at(tabs@, tab, i as int),
            None => !tabs@.contains(tab),
        },
{
    let mut i: usize = 0;
    while i < tabs.len()
        invariant
            0 <= i <= tabs.len(),
            forall|j: int| 0 <= j < i ==> tabs@[j] != tab,
        decreases tabs.len() - i,
    {
        if tabs[i] == tab {
            return Some(i);
        }
        i += 1;
    }
    None
}

impl App {
    /// The groups derived for the active tab, or none where they were not
    /// derived yet.
    pub open spec fn active_groups(&self) -> Seq<Group> {
        match self.active_tab {
            Tab::Media => match self.media_groups {
                Some(groups) => groups@,
                None => Seq::empty(),
            },
            Tab::MediaFolder(idx) => if self.folder_groups@.contains_key(idx) {
                self.folder_groups@[idx]@
            } else {
                Seq::empty()
            },
            Tab::Downloads => match self.download_groups {
                Some(groups) => groups@,
                None => Seq::empty(),
            },
        }
    }

    /// The positions, among the groups of the active tab, of the groups that the
    /// view lists, in the order in which it lists them: the one listing of the
    /// groups that match the search query and pass the filter, sorted by the
    /// chosen key in the chosen direction.
    pub open spec fn listed(&self) -> Seq<usize> {
        listing(
            group_views(self.active_groups()),
            self.search_query@,
            self.filter,
            self.sort_by,
            self.sort_order,
        )
    }

    /// The group that is selected in the view, if the selection points at one.
    pub open spec fn selection(&self) -> Option<Group> {
        if self.selected_index < self.listed().len() {
            Some(self.active_groups()[self.listed()[self.selected_index as int] as int])
        } else {
            None
        }
    }

    /// Every derived group list is the grouping of the present records: no view
    /// shows stale groups.
    pub open spec fn groups_fresh(&self) -> bool {
        let rs = records(self.nodes@);
        let media_dirs = self.config.media_dirs.deep_view();
        &&& match self.media_groups {
            Some(groups) => is_grouping(group_views(groups@), rs, false, media_dirs),
            None => true,
        }
        &&& forall|idx: usize| #[trigger]
            self.folder_groups@.contains_key(idx) ==> idx < media_dirs.len() && is_grouping(
                group_views(self.folder_groups@[idx]@),
                rs,
                false,
                seq![media_dirs[idx as int]],
            )
        &&& match self.download_groups {
            Some(groups) => match self.config.download_dir {
                Some(dir) => is_grouping(group_views(groups@), rs, true, seq![dir@]),
                None => false,
            },
            None => true,
        }
    }

    /// The application at its start: ready, on the media tab, nothing derived,
    /// nothing selected, sorted by name in ascending order and unfiltered.
    pub fn new(config: Config, nodes: Vec<FileNode>, torrents: Vec<TorrentInfo>) -> (app: Self)
        ensures
            app.config == config,
            app.nodes == nodes,
            app.torrents == torrents,
            app.running,
            app.active_tab == Tab::Media,
            app.media_groups is None,
            app.folder_groups@ == Map::<usize, Vec<Group>>::empty(),
            app.download_groups is None,
            app.selected_index == 0,
            !app.show_details,
            !app.show_confirmation,
            app.delete_scope == DeleteScope::Downloads,
            app.available_scopes@.len() == 0,
            app.search_query@.len() == 0,
            !app.search_active,
            app.sort_by == SortBy::Name,
            app.sort_order == SortOrder::Ascending,
            app.filter == FilterMode::All,
            app.pending_qbit_deletions@.len() == 0,
            app.state == AppState::Ready,
            app.groups_fresh(),
    {
        App {
            config,
            running: true,
            active_tab: Tab::Media,
            media_groups: None,
            folder_groups: HashMap::new(),
            download_groups: None,
            nodes,
            selected_index: 0,
            show_details: false,
            show_confirmation: false,
            delete_scope: DeleteScope::Downloads,
            available_scopes: Vec::new(),
            search_query: String::new(),
            search_active: false,
            sort_by: SortBy::Name,
            sort_order: SortOrder::Ascending,
            filter: FilterMode::All,
            pending_qbit_deletions: Vec::new(),
            state: AppState::Ready,
            torrents,
        }
    }

    /// Forgets every derived group list, so that each view derives its groups
    /// anew from the records.
    pub fn refresh_groups(&mut self)
        ensures
            final(self).media_groups is None,
            final(self).folder_groups@ == Map::<usize, Vec<Group>>::empty(),
            final(self).download_groups is None,
            final(self).groups_fresh(),
            *final(self) == (App {
                media_groups: final(self).media_groups,
                folder_groups: final(self).folder_groups,
                download_groups: final(self).download_groups,
                ..*old(self)
            }),
    {
        self.media_groups = None;
        self.folder_groups.clear();
        self.download_groups = None;
    }

    pub fn toggle_details(&mut self)
        ensures
            *final(self) == (App { show_details: !old(self).show_details, ..*old(self) }),
    {
        self.show_details = !self.show_details;
    }

    pub fn quit(&mut self)
        ensures
            *final(self) == (App { running: false, ..*old(self) }),
    {
        self.running = false;
    }

    pub fn cancel_delete(&mut self)
        ensures
            *final(self) == (App { show_confirmation: false, ..*old(self) }),
    {
        self.show_confirmation = false;
    }

    /// The tabs that the configuration gives.
    pub fn get_tabs_list(&self) -> (tabs: Vec<Tab>)
        ensures
            tabs@ == tabs_for(self.config.media_dirs@.len()),
    {
        let mut tabs: Vec<Tab> = Vec::new();
        tabs.push(Tab::Media);
        let n = self.config.media_dirs.len();
        if n > 1 {
            let mut i: usize = 0;
            while i < n
                invariant
                    0 <= i <= n,
                    n == self.config.media_dirs@.len(),
                    tabs@ == seq![Tab::Media] + Seq::new(i as nat, |k: int| Tab::MediaFolder(k as usize)),
                decreases n - i,
            {
                tabs.push(Tab::MediaFolder(i));
                assert(tabs@ =~= seq![Tab::Media] + Seq::new(
                    (i + 1) as nat,
                    |k: int| Tab::MediaFolder(k as usize),
                ));
                i += 1;
            }
        }
        tabs.push(Tab::Downloads);
        assert(tabs@ =~= tabs_for(n as nat));
        tabs
    }

    /// Moves to the tab after the active one, the first following the last, and
    /// selects the first group there. Where the active tab is not among the
    /// tabs, nothing changes.
    pub fn next_tab(&mut self)
        ensures
            App::tab_advanced(*old(self), *final(self)),
    {
        let tabs = self.get_tabs_list();
        match tab_position(&tabs, self.active_tab) {
            Some(at) => {
                proof {
                    let c = position_or_zero(tabs@, self.active_tab);
                    assert(tabs@[at as int] == self.active_tab);
                    assert(tabs@.contains(self.active_tab));
                    assert(first_at(tabs@, self.active_tab, c));
                    assert(c == at);
                }
                let count = tabs.len();
                let next = (at + 1) % count;
                self.active_tab = tabs[next];
                self.selected_index = 0;
            },
            None => {},
        }
    }

    /// Moves to the tab at `index`, counting from 0, and selects the first group
    /// there. Where there is no such tab, nothing changes.
    pub fn set_tab_index(&mut self, index: usize)
        ensures
            ({
                let tabs = tabs_for(old(self).config.media_dirs@.len());
                if index < tabs.len() {
                    *final(self) == (App {
                        active_tab: tabs[index as int],
                        selected_index: 0,
                        ..*old(self)
                    })
                } else {
                    *final(self) == *old(self)
                }
            }),
    {
        let tabs = self.get_tabs_list();
        if index < tabs.len() {
            self.active_tab = tabs[index];
            self.selected_index = 0;
        }
    }
}

impl App {
    /// `post` is `pre` after a move to the next tab: the tab after the active one is
    /// active, the first following the last, and the first group is selected. Where
    /// the active tab is not among the tabs, nothing has changed.
    pub open spec fn tab_advanced(pre: App, post: App) -> bool {
        let tabs = tabs_for(pre.config.media_dirs@.len());
        if tabs.contains(pre.active_tab) {
            post == (App {
                active_tab: tabs[(position_or_zero(tabs, pre.active_tab) + 1) % (
                tabs.len() as int)],
                selected_index: 0,
                ..pre
            })
        } else {
            post == pre
        }
    }

    /// `post` is `pre` with the group after the selected one selected, the first
    /// following the last.
    pub open spec fn selection_advanced(pre: App, post: App) -> bool {
        let len = pre.listed().len() as int;
        post == (App {
            selected_index: if len > 0 {
                ((pre.selected_index + 1) % len) as usize
            } else {
                pre.selected_index
            },
            ..pre
        })
    }

    /// `post` is `pre` with the group before the selected one selected, the last
    /// preceding the first.
    pub open spec fn selection_retreated(pre: App, post: App) -> bool {
        let len = pre.listed().len();
        post == (App {
            selected_index: if len == 0 {
                pre.selected_index
            } else if pre.selected_index > 0 {
                (pre.selected_index - 1) as usize
            } else {
                (len - 1) as usize
            },
            ..pre
        })
    }

    /// `post` is `pre` with the confirmation of a deletion of the selected group
    /// open, the feasible scopes on offer and the first of them chosen. Where no
    /// group is selected, or the selected group can be deleted in no scope, nothing
    /// has changed.
    pub open spec fn deletion_requested(pre: App, post: App) -> bool {
        match pre.selection() {
            Some(group) => if feasible_scopes(group@.nodes).len() > 0 {
                &&& post.available_scopes@ == feasible_scopes(group@.nodes)
                &&& post == (App {
                    available_scopes: post.available_scopes,
                    delete_scope: feasible_scopes(group@.nodes)[0],
                    show_confirmation: true,
                    ..pre
                })
            } else {
                post == pre
            },
            None => post == pre,
        }
    }

    /// `post` is `pre` with the confirmation closed, and `plan` is what the deletion
    /// of the selected group in the chosen scope removes; an empty plan where no
    /// group is selected.
    pub open spec fn deletion_confirmed(pre: App, post: App, plan: DeletionPlan) -> bool {
        &&& post == (App { show_confirmation: false, ..pre })
        &&& match pre.selection() {
            Some(group) => {
                &&& plan.paths.deep_view() == planned_paths(
                    records(pre.nodes@),
                    group@,
                    pre.delete_scope,
                    pre.config.download_dir.deep_view(),
                    pre.config.media_dirs.deep_view(),
                )
                &&& plan.hashes.deep_view() == planned_hashes(
                    records(pre.nodes@),
                    group@,
                    pre.delete_scope,
                )
            },
            None => plan.paths@.len() == 0 && plan.hashes@.len() == 0,
        }
    }
}

impl App {
    /// The groups of the active tab are derived, where the configuration names
    /// the root that the tab shows.
    pub open spec fn active_derived(&self) -> bool {
        match self.active_tab {
            Tab::Media => self.media_groups is Some,
            Tab::MediaFolder(idx) => idx < self.config.media_dirs@.len()
                ==> self.folder_groups@.contains_key(idx),
            Tab::Downloads => self.config.download_dir is Some ==> self.download_groups is Some,
        }
    }

    /// Derives the groups of the active tab from the records, unless they are
    /// derived already. The media tab groups by all media roots, the tab of one
    /// media root by that root, the downloads tab by the downloads root. What is
    /// derived for the other tabs stays as it is.
    pub fn ensure_groups(&mut self)
        ensures
            final(self).active_derived(),
            old(self).groups_fresh() ==> final(self).groups_fresh(),
            *final(self) == (App {
                media_groups: final(self).media_groups,
                folder_groups: final(self).folder_groups,
                download_groups: final(self).download_groups,
                ..*old(self)
            }),
            match old(self).active_tab {
                Tab::Media => {
                    &&& final(self).folder_groups == old(self).folder_groups
                    &&& final(self).download_groups == old(self).download_groups
                    &&& match old(self).media_groups {
                        Some(_) => final(self).media_groups == old(self).media_groups,
                        None => final(self).media_groups is Some && is_grouping(
                            group_views(final(self).media_groups->0@),
                            records(old(self).nodes@),
                            false,
                            old(self).config.media_dirs.deep_view(),
                        ),
                    }
                },
                Tab::MediaFolder(idx) => {
                    &&& final(self).media_groups == old(self).media_groups
                    &&& final(self).download_groups == old(self).download_groups
                    &&& if old(self).folder_groups@.contains_key(idx) || idx >= old(
                        self,
                    ).config.media_dirs@.len() {
                        final(self).folder_groups == old(self).folder_groups
                    } else {
                        &&& final(self).folder_groups@.contains_key(idx)
                        &&& final(self).folder_groups@ == old(self).folder_groups@.insert(
                            idx,
                            final(self).folder_groups@[idx],
                        )
                        &&& is_grouping(
                            group_views(final(self).folder_groups@[idx]@),
                            records(old(self).nodes@),
                            false,
                            seq![old(self).config.media_dirs[idx as int]@],
                        )
                    }
                },
                Tab::Downloads => {
                    &&& final(self).media_groups == old(self).media_groups
                    &&& final(self).folder_groups == old(self).folder_groups
                    &&& match (old(self).download_groups, old(self).config.download_dir) {
                        (None, Some(dir)) => final(self).download_groups is Some && is_grouping(
                            group_views(final(self).download_groups->0@),
                            records(old(self).nodes@),
                            true,
                            seq![dir@],
                        ),
                        _ => final(self).download_groups == old(self).download_groups,
                    }
                },
            },
    {
        match self.active_tab {
            Tab::Media => {
                if self.media_groups.is_none() {
                    let groups = group_by_media(
                        self.nodes.as_slice(),
                        self.config.media_dirs.as_slice(),
                    );
                    self.media_groups = Some(groups);
                }
            },
            Tab::MediaFolder(idx) => {
                if !self.folder_groups.contains_key(&idx) {
                    if idx < self.config.media_dirs.len() {
                        let mut roots: Vec<String> = Vec::new();
                        roots.push(self.config.media_dirs[idx].clone());
                        let roots = roots.as_slice();
                        assert(roots.deep_view() =~= seq![self.config.media_dirs[idx as int]@]);
                        let groups = group_by_media(self.nodes.as_slice(), roots);
                        let ghost before = self.folder_groups@;
                        self.folder_groups.insert(idx, groups);
                        proof {
                            assert(self.config.media_dirs.deep_view()[idx as int]
                                == self.config.media_dirs[idx as int]@);
                            assert forall|other: usize| #[trigger]
                                self.folder_groups@.contains_key(other) && other
                                    != idx implies before.contains_key(other)
                                && self.folder_groups@[other] == before[other] by {}
                        }
                    }
                }
            },
            Tab::Downloads => {
                if self.download_groups.is_none() {
                    match &self.config.download_dir {
                        Some(dir) => {
                            let groups = group_by_downloads(self.nodes.as_slice(), dir.as_str());
                            self.download_groups = Some(groups);
                        },
                        None => {},
                    }
                }
            },
        }
    }

    /// The groups derived for the active tab, or `None` where they were not
    /// derived yet.
    pub fn derived_groups(&self) -> (groups: Option<&Vec<Group>>)
        ensures
            match groups {
                Some(list) => list@ == self.active_groups(),
                None => self.active_groups() == Seq::<Group>::empty(),
            },
    {
        match self.active_tab {
            Tab::Media => self.media_groups.as_ref(),
            Tab::MediaFolder(idx) => self.folder_groups.get(&idx),
            Tab::Downloads => self.download_groups.as_ref(),
        }
    }

    /// The positions, among the groups of the active tab, of the groups that the
    /// view lists, in the order in which it lists them.
    pub fn current_order(&self) -> (order: Vec<usize>)
        ensures
            order@ == self.listed(),
            is_listing(
                order@,
                group_views(self.active_groups()),
                shown_mask(group_views(self.active_groups()), self.search_query@, self.filter),
                self.sort_by,
                self.sort_order,
            ),
            forall|k: int| 0 <= k < order@.len() ==> (#[trigger] order@[k]) < self.active_groups().len(),
    {
        match self.derived_groups() {
            Some(groups) => arrange(
                groups.as_slice(),
                self.search_query.as_str(),
                self.filter,
                self.sort_by,
                self.sort_order,
            ),
            None => {
                let none: Vec<Group> = Vec::new();
                assert(none@ =~= self.active_groups());
                arrange(
                    none.as_slice(),
                    self.search_query.as_str(),
                    self.filter,
                    self.sort_by,
                    self.sort_order,
                )
            },
        }
    }

    /// The groups that the view lists, in the order in which it lists them: the
    /// groups of the active tab that match the search query and pass the filter,
    /// sorted by the chosen key in the chosen direction.
    pub fn current_groups(&self) -> (shown: Vec<&Group>)
        ensures
            is_listing(
                self.listed(),
                group_views(self.active_groups()),
                shown_mask(group_views(self.active_groups()), self.search_query@, self.filter),
                self.sort_by,
                self.sort_order,
            ),
            shown@.len() == self.listed().len(),
            forall|k: int|
                0 <= k < shown@.len() ==> *(#[trigger] shown@[k]) == self.active_groups()[self.listed()[k] as int],
    {
        let order = self.current_order();
        let mut shown: Vec<&Group> = Vec::new();
        match self.derived_groups() {
            Some(groups) => {
                let mut k: usize = 0;
                while k < order.len()
                    invariant
                        0 <= k <= order.len(),
                        order@ == self.listed(),
                        groups@ == self.active_groups(),
                        forall|q: int|
                            0 <= q < order@.len() ==> (#[trigger] order@[q]) < groups@.len(),
                        shown@.len() == k,
                        forall|q: int|
                            0 <= q < k ==> *(#[trigger] shown@[q]) == groups@[order@[q] as int],
                    decreases order.len() - k,
                {
                    shown.push(&groups[order[k]]);
                    k += 1;
                }
            },
            None => {
                assert(order@.len() == 0) by {
                    if order@.len() > 0 {
                        assert(order@[0] < self.active_groups().len());
                    }
                }
            },
        }
        shown
    }

    /// Selects the group after the selected one, the first following the last.
    pub fn select_next(&mut self)
        ensures
            App::selection_advanced(*old(self), *final(self)),
    {
        let len = self.current_order().len();
        if len > 0 {
            let at = self.selected_index % len;
            let next = if at + 1 == len {
                0
            } else {
                at + 1
            };
            assert(next == (self.selected_index + 1) % (len as int)) by {
                vstd::arithmetic::div_mod::lemma_add_mod_noop(
                    self.selected_index as int,
                    1,
                    len as int,
                );
                if len == 1 {
                } else {
                    vstd::arithmetic::div_mod::lemma_small_mod(1, len as nat);
                    if at + 1 == len {
                        vstd::arithmetic::div_mod::lemma_mod_self_0(len as int);
                    } else {
                        vstd::arithmetic::div_mod::lemma_small_mod((at + 1) as nat, len as nat);
                    }
                }
            }
            self.selected_index = next;
        }
    }

    /// Selects the group before the selected one, the last preceding the first.
    pub fn select_prev(&mut self)
        ensures
            App::selection_retreated(*old(self), *final(self)),
    {
        let len = self.current_order().len();
        if len > 0 {
            if self.selected_index > 0 {
                self.selected_index -= 1;
            } else {
                self.selected_index = len - 1;
            }
        }
    }

    /// The group that is selected in the view.
    fn selected_group(&self) -> (group: Option<&Group>)
        ensures
            match group {
                Some(g) => self.selection() == Some(*g),
                None => self.selection() is None,
            },
    {
        let order = self.current_order();
        if self.selected_index < order.len() {
            match self.derived_groups() {
                Some(groups) => Some(&groups[order[self.selected_index]]),
                None => {
                    assert(order@[self.selected_index as int] < self.active_groups().len());
                    None
                },
            }
        } else {
            None
        }
    }

    /// Opens the confirmation of a deletion of the selected group, offering the
    /// scopes in which the group can be deleted and choosing the first of them.
    /// Where no group is selected, or the selected group can be deleted in no
    /// scope, nothing changes.
    pub fn request_delete(&mut self)
        ensures
            App::deletion_requested(*old(self), *final(self)),
    {
        let available = match self.selected_group() {
            Some(group) => available_scopes(group),
            None => {
                return;
            },
        };
        if available.len() == 0 {
            return;
        }
        self.delete_scope = available[0];
        self.available_scopes = available;
        self.show_confirmation = true;
    }

    /// Confirms the deletion: closes the confirmation and works out what the
    /// deletion of the selected group in the chosen scope removes. The caller
    /// removes the planned paths from disk and reports with
    /// [`App::execute_delete`] which of them are gone. Where no group is
    /// selected the plan is empty.
    pub fn confirm_delete(&mut self) -> (plan: DeletionPlan)
        ensures
            App::deletion_confirmed(*old(self), *final(self), plan),
    {
        let plan = match self.selected_group() {
            Some(group) => plan_delete(
                self.nodes.as_slice(),
                group,
                self.delete_scope,
                &self.config.download_dir,
                self.config.media_dirs.as_slice(),
            ),
            None => DeletionPlan { paths: Vec::new(), hashes: Vec::new() },
        };
        self.show_confirmation = false;
        plan
    }

    /// Completes a deletion after the caller removed paths from disk. The
    /// torrents of the plan are queued for removal by the torrent service; the
    /// planned paths that are gone leave the records, whose root flags are
    /// derived anew, and records without a path are dropped; every derived group
    /// list is forgotten, so that each view derives its groups anew from the
    /// records that are left. The selection stays where it is. The result is
    /// the account of the deletion.
    pub fn execute_delete(&mut self, plan: &DeletionPlan, removed: &Vec<String>) -> (outcome:
        DeletionOutcome)
        ensures
            outcome.removed.deep_view() == gone_paths(plan.paths.deep_view(), removed.deep_view()),
            outcome.failed.deep_view() == kept_paths(plan.paths.deep_view(), removed.deep_view()),
            outcome.requested.deep_view() == plan.hashes.deep_view(),
            final(self).pending_qbit_deletions.deep_view() == queued(
                old(self).pending_qbit_deletions.deep_view(),
                plan.hashes.deep_view(),
            ),
            records(final(self).nodes@) == after_removal(
                records(old(self).nodes@),
                gone_paths(plan.paths.deep_view(), removed.deep_view()),
                old(self).config.download_dir.deep_view(),
                old(self).config.media_dirs.deep_view(),
            ),
            final(self).media_groups is None,
            final(self).folder_groups@ == Map::<usize, Vec<Group>>::empty(),
            final(self).download_groups is None,
            final(self).groups_fresh(),
            *final(self) == (App {
                pending_qbit_deletions: final(self).pending_qbit_deletions,
                nodes: final(self).nodes,
                media_groups: final(self).media_groups,
                folder_groups: final(self).folder_groups,
                download_groups: final(self).download_groups,
                ..*old(self)
            }),
    {
        queue_hashes(&mut self.pending_qbit_deletions, &plan.hashes);
        apply_removal(
            &mut self.nodes,
            plan,
            removed,
            &self.config.download_dir,
            self.config.media_dirs.as_slice(),
        );
        self.refresh_groups();
        account(plan, removed)
    }

    /// Begins a scan, unless one is running: two scans at a time would share the
    /// cache. The result tells whether the scan may start; the application is
    /// then scanning, with no file reported yet.
    pub fn begin_scan(&mut self) -> (started: bool)
        ensures
            started == !(old(self).state is Scanning),
            *final(self) == if started {
                App { state: AppState::Scanning { processed: 0 }, ..*old(self) }
            } else {
                *old(self)
            },
    {
        match &self.state {
            AppState::Scanning { processed: _ } => false,
            _ => {
                self.state = AppState::Scanning { processed: 0 };
                true
            },
        }
    }

    /// Takes one event of the running scan. A progress tick is counted, as long
    /// as the count fits. The
    /// completion brings the records of the scan: they are matched to the listed
    /// torrents and replace the present records, every derived group list is
    /// forgotten and the application is ready again. A failure is kept as the
    /// state. The result tells whether the scan is over; where no scan is
    /// running the event is dropped and the result is `true`.
    pub fn tick(&mut self, event: ScanEvent) -> (over: bool)
        ensures
            match (old(self).state, event) {
                (AppState::Scanning { processed }, ScanEvent::FileScanned) => {
                    &&& !over
                    &&& *final(self) == (App {
                        state: AppState::Scanning {
                            processed: if processed < usize::MAX {
                                (processed + 1) as usize
                            } else {
                                processed
                            },
                        },
                        ..*old(self)
                    })
                },
                (AppState::Scanning { processed }, ScanEvent::Finished(found)) => {
                    &&& over
                    &&& final(self).state == AppState::Ready
                    &&& final(self).nodes@.len() == found@.len()
                    &&& forall|i: int|
                        0 <= i < found@.len() ==> (#[trigger] final(self).nodes@[i])@ == enriched(
                            found@[i]@,
                            torrents_of(old(self).torrents@),
                        )
                    &&& final(self).media_groups is None
                    &&& final(self).folder_groups@ == Map::<usize, Vec<Group>>::empty()
                    &&& final(self).download_groups is None
                    &&& final(self).groups_fresh()
                    &&& *final(self) == (App {
                        state: final(self).state,
                        nodes: final(self).nodes,
                        media_groups: final(self).media_groups,
                        folder_groups: final(self).folder_groups,
                        download_groups: final(self).download_groups,
                        ..*old(self)
                    })
                },
                (AppState::Scanning { processed }, ScanEvent::Error(message)) => {
                    &&& over
                    &&& *final(self) == (App { state: AppState::Error(message), ..*old(self) })
                },
                _ => over && *final(self) == *old(self),
            },
    {
        let processed = match &self.state {
            AppState::Scanning { processed } => *processed,
            _ => {
                return true;
            },
        };
        match event {
            ScanEvent::FileScanned => {
                if processed < usize::MAX {
                    self.state = AppState::Scanning { processed: processed + 1 };
                }
                false
            },
            ScanEvent::Finished(found) => {
                let mut found = found;
                enrich(&mut found, self.torrents.as_slice());
                self.nodes = found;
                self.refresh_groups();
                self.state = AppState::Ready;
                true
            },
            ScanEvent::Error(message) => {
                self.state = AppState::Error(message);
                true
            },
        }
    }
}

/// Appends the character to the string, as `String::push` of the standard library
/// does.
#[verifier::external_body]
fn push_char(text: &mut String, c: char)
    ensures
        final(text)@ == old(text)@.push(c),
{
    text.push(c);
}

/// Removes the last character of the string, if it has one.
fn pop_char(text: &mut String)
    ensures
        final(text)@ == if old(text)@.len() > 0 {
            old(text)@.drop_last()
        } else {
            old(text)@
        },
{
    let n = text.as_str().unicode_len();
    if n > 0 {
        let shorter = text.as_str().substring_char(0, n - 1).to_owned();
        assert(shorter@ =~= text@.drop_last());
        *text = shorter;
    }
}

impl App {
    /// `post` and `action` are the answer of `pre` to the key.
    ///
    /// `Esc` closes the confirmation, or else ends the search and clears the
    /// query. While the search is active, a character joins the query and
    /// `Backspace` takes its last character off, and the first group is
    /// selected. Otherwise `q` quits; `Tab` moves to the next tab; `Down` or `j`
    /// and `Up` or `k` move the scope while the confirmation is open and the
    /// selection while it is not; `Enter` confirms an open confirmation; and,
    /// while no confirmation is open, `i` toggles the details, `t` or `d`
    /// requests a deletion, `f` moves to the next filter, `s` to the next sort
    /// key, `S` turns the sort order round, `/` begins a search, and `r` begins
    /// a scan unless one is running. Any other key changes nothing.
    pub open spec fn responds(pre: App, key: Key, post: App, action: Action) -> bool {
        if key == Key::Esc {
            &&& action is Nothing
            &&& if pre.show_confirmation {
                post == (App { show_confirmation: false, ..pre })
            } else if pre.search_active {
                post.search_query@.len() == 0 && post == (App {
                    search_active: false,
                    search_query: post.search_query,
                    ..pre
                })
            } else {
                post == pre
            }
        } else if pre.search_active && key is Char {
            &&& action is Nothing
            &&& post.search_query@ == pre.search_query@.push(key->Char_0)
            &&& post == (App { search_query: post.search_query, selected_index: 0, ..pre })
        } else if pre.search_active && key == Key::Backspace {
            &&& action is Nothing
            &&& post.search_query@ == if pre.search_query@.len() > 0 {
                pre.search_query@.drop_last()
            } else {
                pre.search_query@
            }
            &&& post == (App { search_query: post.search_query, selected_index: 0, ..pre })
        } else if key == Key::Char('q') {
            action is Nothing && post == (App { running: false, ..pre })
        } else if key == Key::Tab {
            action is Nothing && App::tab_advanced(pre, post)
        } else if key == Key::Down || key == Key::Char('j') {
            &&& action is Nothing
            &&& if pre.show_confirmation {
                post == (App {
                    delete_scope: scope_after(pre.delete_scope, pre.available_scopes@),
                    ..pre
                })
            } else {
                App::selection_advanced(pre, post)
            }
        } else if key == Key::Up || key == Key::Char('k') {
            &&& action is Nothing
            &&& if pre.show_confirmation {
                post == (App {
                    delete_scope: scope_before(pre.delete_scope, pre.available_scopes@),
                    ..pre
                })
            } else {
                App::selection_retreated(pre, post)
            }
        } else if key == Key::Enter {
            if pre.show_confirmation {
                action matches Action::Delete(plan) && App::deletion_confirmed(pre, post, plan)
            } else {
                action is Nothing && post == pre
            }
        } else if pre.show_confirmation {
            action is Nothing && post == pre
        } else if key == Key::Char('i') {
            action is Nothing && post == (App { show_details: !pre.show_details, ..pre })
        } else if key == Key::Char('t') || key == Key::Char('d') {
            action is Nothing && App::deletion_requested(pre, post)
        } else if key == Key::Char('f') {
            action is Nothing && post == (App {
                filter: match pre.filter {
                    FilterMode::All => FilterMode::Orphans,
                    FilterMode::Orphans => FilterMode::Hardlinked,
                    FilterMode::Hardlinked => FilterMode::All,
                },
                ..pre
            })
        } else if key == Key::Char('s') {
            action is Nothing && post == (App {
                sort_by: match pre.sort_by {
                    SortBy::Name => SortBy::Size,
                    SortBy::Size => SortBy::DateAdded,
                    SortBy::DateAdded => SortBy::Name,
                },
                ..pre
            })
        } else if key == Key::Char('S') {
            action is Nothing && post == (App {
                sort_order: match pre.sort_order {
                    SortOrder::Ascending => SortOrder::Descending,
                    SortOrder::Descending => SortOrder::Ascending,
                },
                ..pre
            })
        } else if key == Key::Char('/') {
            action is Nothing && post == (App { search_active: true, ..pre })
        } else if key == Key::Char('r') {
            if pre.state is Scanning {
                action is Nothing && post == pre
            } else {
                action is Rescan && post == (App {
                    state: AppState::Scanning { processed: 0 },
                    ..pre
                })
            }
        } else {
            action is Nothing && post == pre
        }
    }

    /// Answers a key: changes the state as the key asks, and tells what the
    /// caller is to do.
    pub fn on_key(&mut self, key: Key) -> (action: Action)
        ensures
            App::responds(*old(self), key, *final(self), action),
    {
        match key {
            Key::Esc => {
                if self.show_confirmation {
                    self.cancel_delete();
                } else if self.search_active {
                    self.search_active = false;
                    self.search_query = String::new();
                }
                return Action::Nothing;
            },
            Key::Char(c) => {
                if self.search_active {
                    push_char(&mut self.search_query, c);
                    self.selected_index = 0;
                    return Action::Nothing;
                }
            },
            Key::Backspace => {
                if self.search_active {
                    pop_char(&mut self.search_query);
                    self.selected_index = 0;
                }
                return Action::Nothing;
            },
            Key::Tab => {
                self.next_tab();
                return Action::Nothing;
            },
            Key::Enter => {
                if self.show_confirmation {
                    return Action::Delete(self.confirm_delete());
                }
                return Action::Nothing;
            },
            _ => {},
        }
        let down = match key {
            Key::Down => true,
            Key::Char(c) => c == 'j',
            _ => false,
        };
        let up = match key {
            Key::Up => true,
            Key::Char(c) => c == 'k',
            _ => false,
        };
        if down {
            if self.show_confirmation {
                self.delete_scope = self.delete_scope.next(self.available_scopes.as_slice());
            } else {
                self.select_next();
            }
            return Action::Nothing;
        }
        if up {
            if self.show_confirmation {
                self.delete_scope = self.delete_scope.prev(self.available_scopes.as_slice());
            } else {
                self.select_prev();
            }
            return Action::Nothing;
        }
        let c = match key {
            Key::Char(c) => c,
            _ => {
                return Action::Nothing;
            },
        };
        if c == 'q' {
            self.quit();
        } else if self.show_confirmation {
        } else if c == 'i' {
            self.toggle_details();
        } else if c == 't' || c == 'd' {
            self.request_delete();
        } else if c == 'f' {
            self.filter = self.filter.next();
        } else if c == 's' {
            self.sort_by = self.sort_by.next();
        } else if c == 'S' {
            self.sort_order = self.sort_order.toggle();
        } else if c == '/' {
            self.search_active = true;
        } else if c == 'r' {
            if self.begin_scan() {
                return Action::Rescan;
            }
        }
        Action::Nothing
    }

    /// Hands out the torrents whose removal is to be asked of the torrent
    /// service, and empties the queue.
    pub fn take_pending(&mut self) -> (pending: Vec<String>)
        ensures
            pending == old(self).pending_qbit_deletions,
            final(self).pending_qbit_deletions@.len() == 0,
            *final(self) == (App {
                pending_qbit_deletions: final(self).pending_qbit_deletions,
                ..*old(self)
            }),
    {
        let mut pending: Vec<String> = Vec::new();
        std::mem::swap(&mut pending, &mut self.pending_qbit_deletions);
        pending
    }
}

} // verus!
