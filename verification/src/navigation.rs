//! Where the user is in the interface: the tab, the block that has the
//! focus, and the way back.

use vstd::prelude::*;

verus! {

/// The two tabs of the interface.
#[derive(Clone, Copy, Debug, PartialEq, Eq, Structural, Hash)]
pub enum Tab {
    Manage,
    Install,
}

/// The blocks that can have the focus.
#[derive(Clone, Copy, Debug, PartialEq, Eq, Structural, Hash)]
pub enum ActiveBlock {
    InstallModList,
    InstallSearch,
    InstallModDetails,
    ManageModList,
    QuitPopup,
}

/// A place in the interface: a block, and the tab that shows it.
#[derive(Clone, Copy, Debug, PartialEq, Eq, Structural)]
pub struct Route {
    pub active_block: ActiveBlock,
    pub tab: Tab,
}

/// The place where the interface starts: the list of installed mods.
pub open spec fn default_route() -> Route {
    Route { active_block: ActiveBlock::ManageModList, tab: Tab::Manage }
}

/// The block that has the focus when the tab `tab` is opened.
pub open spec fn first_block(tab: Tab) -> ActiveBlock {
    match tab {
        Tab::Manage => ActiveBlock::ManageModList,
        Tab::Install => ActiveBlock::InstallModList,
    }
}

/// The tab that shows the block `block`. The quit popup lies over
/// whatever tab is open, here `current`.
pub open spec fn tab_of(block: ActiveBlock, current: Tab) -> Tab {
    match block {
        ActiveBlock::ManageModList => Tab::Manage,
        ActiveBlock::InstallModList
        | ActiveBlock::InstallSearch
        | ActiveBlock::InstallModDetails => Tab::Install,
        ActiveBlock::QuitPopup => current,
    }
}

/// The place that a history of places ends in.
pub open spec fn current_route(history: Seq<Route>) -> Route {
    if history.len() > 0 {
        history.last()
    } else {
        default_route()
    }
}

/// The state of the interface that does not depend on what is shown: the
/// places that the user went through, how far the details are scrolled,
/// the ticks counted, and whether the user asked to quit.
#[derive(Debug)]
pub struct FML {
    pub navigation_history: Vec<Route>,
    pub ticks: u64,
    pub should_quit: bool,
    pub scroll_offset: u16,
}

impl FML {
    /// The state in which the interface starts.
    pub fn new() -> (r: FML)
        ensures
            r.navigation_history@ == seq![default_route()],
            r.ticks == 0,
            !r.should_quit,
            r.scroll_offset == 0,
    {
        let mut history: Vec<Route> = Vec::new();
        history.push(Route { active_block: ActiveBlock::ManageModList, tab: Tab::Manage });
        assert(history@ =~= seq![default_route()]);
        FML { navigation_history: history, ticks: 0, should_quit: false, scroll_offset: 0 }
    }

    /// Notes that the user asked to quit.
    pub fn quit_gracefully(&mut self)
        ensures
            final(self).should_quit,
            final(self).navigation_history == old(self).navigation_history,
            final(self).ticks == old(self).ticks,
            final(self).scroll_offset == old(self).scroll_offset,
    {
        self.should_quit = true;
    }

    /// The place where the user is.
    fn route(&self) -> (r: Route)
        ensures
            r == current_route(self.navigation_history@),
    {
        if self.navigation_history.len() > 0 {
            self.navigation_history[self.navigation_history.len() - 1]
        } else {
            Route { active_block: ActiveBlock::ManageModList, tab: Tab::Manage }
        }
    }

    /// The tab that is open.
    pub fn current_tab(&self) -> (r: Tab)
        ensures
            r == current_route(self.navigation_history@).tab,
    {
        self.route().tab
    }

    /// The block that has the focus.
    pub fn active_block(&self) -> (r: ActiveBlock)
        ensures
            r == current_route(self.navigation_history@).active_block,
    {
        self.route().active_block
    }

    /// Goes to the place `route`.
    fn navigate(&mut self, route: Route)
        ensures
            final(self).navigation_history@ == old(self).navigation_history@.push(route),
            final(self).ticks == old(self).ticks,
            final(self).should_quit == old(self).should_quit,
            final(self).scroll_offset == old(self).scroll_offset,
    {
        self.navigation_history.push(route);
    }

    /// Opens the tab `tab`, with the focus on its first block.
    pub fn navigate_tab(&mut self, tab: Tab)
        ensures
            final(self).navigation_history@ == old(self).navigation_history@.push(
                Route { active_block: first_block(tab), tab },
            ),
            final(self).ticks == old(self).ticks,
            final(self).should_quit == old(self).should_quit,
            final(self).scroll_offset == old(self).scroll_offset,
    {
        let active_block = match tab {
            Tab::Manage => ActiveBlock::ManageModList,
            Tab::Install => ActiveBlock::InstallModList,
        };
        self.navigate(Route { tab, active_block });
    }

    /// Puts the focus on the block `active_block`, in the tab that shows
    /// it.
    pub fn navigate_block(&mut self, active_block: ActiveBlock)
        ensures
            final(self).navigation_history@ == old(self).navigation_history@.push(
                Route {
                    active_block,
                    tab: tab_of(active_block, current_route(old(self).navigation_history@).tab),
                },
            ),
            final(self).ticks == old(self).ticks,
            final(self).should_quit == old(self).should_quit,
            final(self).scroll_offset == old(self).scroll_offset,
    {
        let tab = match active_block {
            ActiveBlock::ManageModList => Tab::Manage,
            ActiveBlock::InstallModList
            | ActiveBlock::InstallSearch
            | ActiveBlock::InstallModDetails => Tab::Install,
            ActiveBlock::QuitPopup => self.current_tab(),
        };
        self.navigate(Route { tab, active_block });
    }

    /// Goes back to the place before, unless the user is at the first
    /// place.
    pub fn undo_navigation(&mut self)
        ensures
            final(self).navigation_history@ == (if old(self).navigation_history@.len() > 1 {
                old(self).navigation_history@.drop_last()
            } else {
                old(self).navigation_history@
            }),
            final(self).ticks == old(self).ticks,
            final(self).should_quit == old(self).should_quit,
            final(self).scroll_offset == old(self).scroll_offset,
    {
        if self.navigation_history.len() > 1 {
            self.navigation_history.pop();
        }
    }

    /// Scrolls the details up by one line, if they are scrolled at all.
    pub fn scroll_up(&mut self)
        ensures
            final(self).scroll_offset == (if old(self).scroll_offset > 0 {
                old(self).scroll_offset - 1
            } else {
                0
            }),
            final(self).navigation_history == old(self).navigation_history,
            final(self).ticks == old(self).ticks,
            final(self).should_quit == old(self).should_quit,
    {
        if self.scroll_offset > 0 {
            self.scroll_offset = self.scroll_offset - 1;
        }
    }

    /// Scrolls the details down by one line.
    pub fn scroll_down(&mut self)
        requires
            old(self).scroll_offset < u16::MAX,
        ensures
            final(self).scroll_offset == old(self).scroll_offset + 1,
            final(self).navigation_history == old(self).navigation_history,
            final(self).ticks == old(self).ticks,
            final(self).should_quit == old(self).should_quit,
    {
        self.scroll_offset = self.scroll_offset + 1;
    }
}

/// Going somewhere and back leaves the user where they were.
pub proof fn lemma_navigate_then_undo(history: Seq<Route>, route: Route)
    requires
        history.len() > 0,
    ensures
        history.push(route).drop_last() == history,
        current_route(history.push(route)) == route,
{
    assert(history.push(route).drop_last() =~= history);
}

} // verus!
