//! The terminal viewer's state machine: a tab index over four fixed tabs,
//! a demo counter, an exit flag, and the last-loaded account snapshot.
//!
//! Rendering and event reading live outside the library; what stands here
//! is every state transition the viewer makes and the selection of the
//! text each tab shows. The demo counter wraps at the ends of its range
//! rather than aborting: it is a placeholder value unrelated to any
//! financial data.

use vstd::prelude::*;

use crate::model::{Account, ApiResponse};

verus! {

/// One key input the viewer reacts to. Anything else is `Other`, which
/// leaves the state unchanged.
#[derive(Clone, Copy, Debug, PartialEq, Eq, Structural)]
pub enum KeyInput {
    Quit,
    Left,
    Right,
    NextTab,
    PrevTab,
    Other,
}

/// The number of tabs the viewer cycles through.
pub const TAB_COUNT: usize = 4;

/// The viewer's whole state.
pub struct App {
    pub counter: u8,
    pub exit: bool,
    pub tab_index: usize,
    pub api_response: Option<ApiResponse>,
}

impl App {
    /// The state invariant: the tab index always names one of the four tabs.
    pub open spec fn inv(self) -> bool {
        self.tab_index < TAB_COUNT
    }

    /// The first account of the loaded snapshot, if any snapshot is loaded
    /// and it holds at least one account.
    pub open spec fn first_account(self) -> Option<Account> {
        match self.api_response {
            Some(resp) => if resp.data@.len() > 0 {
                Some(resp.data@[0])
            } else {
                None
            },
            None => None,
        }
    }

    /// Attaches a loaded snapshot to the state, leaving everything else as
    /// it was.
    pub fn with_api_response(self, api_response: ApiResponse) -> (r: Self)
        ensures
            r.api_response == Some(api_response),
            r.counter == self.counter,
            r.exit == self.exit,
            r.tab_index == self.tab_index,
    {
        App { api_response: Some(api_response), ..self }
    }

    /// Sets the exit flag; the render/input loop stops at the next check.
    pub fn exit(&mut self)
        ensures
            final(self).exit,
            final(self).counter == old(self).counter,
            final(self).tab_index == old(self).tab_index,
            final(self).api_response == old(self).api_response,
    {
        self.exit = true;
    }

    /// Adds five to the demo counter, wrapping past the top of its range.
    pub fn increment_counter(&mut self)
        ensures
            final(self).counter as int == if old(self).counter as int + 5 <= u8::MAX as int {
                old(self).counter as int + 5
            } else {
                old(self).counter as int + 5 - 256
            },
            final(self).exit == old(self).exit,
            final(self).tab_index == old(self).tab_index,
            final(self).api_response == old(self).api_response,
    {
        self.counter = self.counter.wrapping_add(5);
    }

    /// Takes one from the demo counter, wrapping past the bottom of its range.
    pub fn decrement_counter(&mut self)
        ensures
            final(self).counter as int == if old(self).counter as int >= 1 {
                old(self).counter as int - 1
            } else {
                u8::MAX as int
            },
            final(self).exit == old(self).exit,
            final(self).tab_index == old(self).tab_index,
            final(self).api_response == old(self).api_response,
    {
        self.counter = self.counter.wrapping_sub(1);
    }

    /// Advances the tab index by one, wrapping from the last tab to the first.
    pub fn next_tab(&mut self)
        requires
            old(self).inv(),
        ensures
            final(self).inv(),
            final(self).tab_index as int == (old(self).tab_index as int + 1) % 4,
            final(self).counter == old(self).counter,
            final(self).exit == old(self).exit,
            final(self).api_response == old(self).api_response,
    {
        self.tab_index = (self.tab_index + 1) % TAB_COUNT;
    }

    /// Retreats the tab index by one, wrapping from the first tab to the last.
    pub fn prev_tab(&mut self)
        requires
            old(self).inv(),
        ensures
            final(self).inv(),
            final(self).tab_index as int == if old(self).tab_index == 0 {
                3int
            } else {
                old(self).tab_index as int - 1
            },
            final(self).counter == old(self).counter,
            final(self).exit == old(self).exit,
            final(self).api_response == old(self).api_response,
    {
        if self.tab_index == 0 {
            self.tab_index = TAB_COUNT - 1;
        } else {
            self.tab_index = self.tab_index - 1;
        }
    }

    /// Applies one key input to the state: `q` asks to quit, the arrow keys
    /// move the demo counter, Tab and Shift+Tab cycle the tabs, and any
    /// other key leaves the state unchanged.
    pub fn handle_key_event(&mut self, key: KeyInput)
        requires
            old(self).inv(),
        ensures
            final(self).inv(),
            final(self).api_response == old(self).api_response,
            match key {
                KeyInput::Quit => final(self).exit && final(self).counter == old(self).counter
                    && final(self).tab_index == old(self).tab_index,
                KeyInput::Left => final(self).counter as int == if old(self).counter as int >= 1 {
                    old(self).counter as int - 1
                } else {
                    u8::MAX as int
                } && final(self).exit == old(self).exit && final(self).tab_index == old(
                    self,
                ).tab_index,
                KeyInput::Right => final(self).counter as int == if old(self).counter as int + 5
                    <= u8::MAX as int {
                    old(self).counter as int + 5
                } else {
                    old(self).counter as int + 5 - 256
                } && final(self).exit == old(self).exit && final(self).tab_index == old(
                    self,
                ).tab_index,
                KeyInput::NextTab => final(self).tab_index as int == (old(self).tab_index as int
                    + 1) % 4 && final(self).counter == old(self).counter && final(self).exit == old(
                    self,
                ).exit,
                KeyInput::PrevTab => final(self).tab_index as int == if old(self).tab_index == 0 {
                    3int
                } else {
                    old(self).tab_index as int - 1
                } && final(self).counter == old(self).counter && final(self).exit == old(self).exit,
                KeyInput::Other => *final(self) == *old(self),
            },
    {
        match key {
            KeyInput::Quit => self.exit(),
            KeyInput::Left => self.decrement_counter(),
            KeyInput::Right => self.increment_counter(),
            KeyInput::NextTab => self.next_tab(),
            KeyInput::PrevTab => self.prev_tab(),
            KeyInput::Other => {},
        }
    }

    /// The display name of the first loaded account, or a placeholder when
    /// no data is loaded.
    pub fn first_display_name(&self) -> (r: String)
        ensures
            match self.first_account() {
                Some(a) => r@ == a.attributes.display_name@,
                None => r@ == "N/A"@,
            },
    {
        match &self.api_response {
            Some(resp) => if resp.data.len() > 0 {
                resp.data[0].attributes.display_name.clone()
            } else {
                String::from_str("N/A")
            },
            None => String::from_str("N/A"),
        }
    }

    /// The identifier of the first loaded account, or a placeholder when no
    /// data is loaded.
    pub fn first_account_id(&self) -> (r: String)
        ensures
            match self.first_account() {
                Some(a) => r@ == a.account_id@,
                None => r@ == "N/A"@,
            },
    {
        match &self.api_response {
            Some(resp) => if resp.data.len() > 0 {
                resp.data[0].account_id.clone()
            } else {
                String::from_str("N/A")
            },
            None => String::from_str("N/A"),
        }
    }

    /// The balance display value of the first loaded account, or a
    /// placeholder when no data is loaded.
    pub fn first_balance_value(&self) -> (r: String)
        ensures
            match self.first_account() {
                Some(a) => r@ == a.attributes.balance.value@,
                None => r@ == "N/A"@,
            },
    {
        match &self.api_response {
            Some(resp) => if resp.data.len() > 0 {
                resp.data[0].attributes.balance.value.clone()
            } else {
                String::from_str("N/A")
            },
            None => String::from_str("N/A"),
        }
    }
}

impl Default for App {
    /// The startup state: counter at zero, first tab selected, no snapshot
    /// loaded, not exiting.
    fn default() -> (r: Self)
        ensures
            r.counter == 0,
            !r.exit,
            r.tab_index == 0,
            r.api_response is None,
            r.inv(),
    {
        App { counter: 0, exit: false, tab_index: 0, api_response: None }
    }
}

/// The four fixed tab labels, in tab order.
pub fn tab_labels() -> (r: Vec<&'static str>)
    ensures
        r@.len() == 4,
        r@[0]@ == "Spending Accounts"@,
        r@[1]@ == "Savings Accounts"@,
        r@[2]@ == "Investments"@,
        r@[3]@ == "Trends? Search?"@,
{
    let mut labels: Vec<&'static str> = Vec::new();
    labels.push("Spending Accounts");
    labels.push("Savings Accounts");
    labels.push("Investments");
    labels.push("Trends? Search?");
    labels
}

/// The static body text of the tabs past the first; the first tab's body
/// is built from the loaded account fields instead.
pub fn tab_static_text(tab: usize) -> (r: &'static str)
    requires
        1 <= tab < TAB_COUNT,
    ensures
        tab == 1 ==> r@ == "NAME: {} \n ACCOUNT:{} \n BALANCE:{} \n "@,
        tab == 2 ==> r@ == "Settings Tab: Adjust settings here."@,
        tab == 3 ==> r@ == "Spending trends graphed or a transactions search algorithm?"@,
{
    if tab == 1 {
        "NAME: {} \n ACCOUNT:{} \n BALANCE:{} \n "
    } else if tab == 2 {
        "Settings Tab: Adjust settings here."
    } else {
        "Spending trends graphed or a transactions search algorithm?"
    }
}

} // verus!
