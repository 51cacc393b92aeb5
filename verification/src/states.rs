//! The two purchase state machines and their wire codes.

use vstd::prelude::*;
use crate::chance::draw_ratio;
use crate::constants::{DELIVER_RATE_HITS, DELIVER_RATE_OUT_OF};

verus! {

/// The escape character that opens a terminal control sequence.
pub open spec fn esc() -> char {
    '\x1b'
}

/// `text` wrapped in the control sequences that select foreground colour
/// `code` and then reset the terminal.
pub open spec fn painted(text: Seq<char>, code: Seq<char>) -> Seq<char> {
    seq![esc(), '['] + code + seq!['m'] + text + seq![esc(), '[', '0', 'm']
}

/// `shown` is `text`, either bare or painted with `code`.
pub open spec fn shows(shown: Seq<char>, text: Seq<char>, code: Seq<char>) -> bool {
    shown == text || shown == painted(text, code)
}

/// The code of the red foreground.
pub open spec fn red_code() -> Seq<char> {
    seq!['3', '1']
}

/// The code of the green foreground.
pub open spec fn green_code() -> Seq<char> {
    seq!['3', '2']
}

/// The code of the yellow foreground.
pub open spec fn yellow_code() -> Seq<char> {
    seq!['3', '3']
}

/// `colored::Colorize::red` on a string slice, rendered through `Display`.
/// Whether colours are on depends on the terminal and the environment, so the
/// contract allows both renderings: the bare text, or the text between the
/// red foreground sequence and the reset sequence. The text must hold no
/// escape character, since the crate rewrites reset sequences inside it.
#[verifier::external_body]
fn red(text: &str) -> (shown: String)
    requires
        !text@.contains(esc()),
    ensures
        shows(shown@, text@, red_code()),
{
    colored::Colorize::red(text).to_string()
}

/// `colored::Colorize::green` on a string slice, rendered through `Display`:
/// the bare text, or the text between the green foreground sequence and the
/// reset sequence, under the same condition as `red`.
#[verifier::external_body]
fn green(text: &str) -> (shown: String)
    requires
        !text@.contains(esc()),
    ensures
        shows(shown@, text@, green_code()),
{
    colored::Colorize::green(text).to_string()
}

/// `colored::Colorize::yellow` on a string slice, rendered through `Display`:
/// the bare text, or the text between the yellow foreground sequence and the
/// reset sequence, under the same condition as `red`.
#[verifier::external_body]
fn yellow(text: &str) -> (shown: String)
    requires
        !text@.contains(esc()),
    ensures
        shows(shown@, text@, yellow_code()),
{
    colored::Colorize::yellow(text).to_string()
}

/// State of an in-store purchase.
#[derive(Debug, Clone, Copy, PartialEq, Eq, Structural)]
pub enum LocalPurchaseState {
    CREATED,
    SOLD,
    REJECTED,
}

impl LocalPurchaseState {
    /// The label of the state and the colour it is printed in, if any.
    pub open spec fn label(self) -> (Seq<char>, Option<Seq<char>>) {
        match self {
            LocalPurchaseState::CREATED => ("CREADO"@, None),
            LocalPurchaseState::SOLD => ("VENDIDO"@, Some(green_code())),
            LocalPurchaseState::REJECTED => ("RECHAZADO"@, Some(red_code())),
        }
    }

    /// A state is terminal once the purchase was handled.
    pub open spec fn is_terminal(self) -> bool {
        self != LocalPurchaseState::CREATED
    }

    /// The bare label of the state.
    pub fn to_string(&self) -> (label: String)
        ensures
            label@ == self.label().0,
    {
        match self {
            LocalPurchaseState::CREATED => "CREADO".to_owned(),
            LocalPurchaseState::SOLD => "VENDIDO".to_owned(),
            LocalPurchaseState::REJECTED => "RECHAZADO".to_owned(),
        }
    }

    /// The label of the state as the terminal shows it.
    pub fn string_to_print(&self) -> (shown: String)
        ensures
            match self.label().1 {
                None => shown@ == self.label().0,
                Some(code) => shows(shown@, self.label().0, code),
            },
    {
        match self {
            LocalPurchaseState::CREATED => "CREADO".to_owned(),
            LocalPurchaseState::SOLD => {
                proof {
                    reveal_strlit("VENDIDO");
                }
                green("VENDIDO")
            },
            LocalPurchaseState::REJECTED => {
                proof {
                    reveal_strlit("RECHAZADO");
                }
                red("RECHAZADO")
            },
        }
    }
}

/// State of an online purchase, as the shop that serves it sees it.
#[derive(Debug, Clone, Copy, PartialEq, Eq, Structural)]
pub enum OnlinePurchaseState {
    RECEIVED,
    RESERVED,
    DELIVERED,
    REJECTED,
    LOST,
}

impl OnlinePurchaseState {
    /// The label of the state and the colour it is printed in, if any.
    pub open spec fn label(self) -> (Seq<char>, Option<Seq<char>>) {
        match self {
            OnlinePurchaseState::RECEIVED => ("RECIBIDO"@, None),
            OnlinePurchaseState::RESERVED => ("RESERVADO"@, Some(yellow_code())),
            OnlinePurchaseState::REJECTED => ("NO STOCK"@, Some(red_code())),
            OnlinePurchaseState::DELIVERED => ("ENTREGADO"@, Some(green_code())),
            OnlinePurchaseState::LOST => ("PERDIDO"@, Some(red_code())),
        }
    }

    /// The code of the state on the wire.
    pub open spec fn code(self) -> u8 {
        match self {
            OnlinePurchaseState::RECEIVED => 0,
            OnlinePurchaseState::RESERVED => 1,
            OnlinePurchaseState::REJECTED => 2,
            OnlinePurchaseState::DELIVERED => 3,
            OnlinePurchaseState::LOST => 4,
        }
    }

    /// The state that a wire code stands for.
    pub open spec fn of_code(code: u8) -> Option<OnlinePurchaseState> {
        if code == 0 {
            Some(OnlinePurchaseState::RECEIVED)
        } else if code == 1 {
            Some(OnlinePurchaseState::RESERVED)
        } else if code == 2 {
            Some(OnlinePurchaseState::REJECTED)
        } else if code == 3 {
            Some(OnlinePurchaseState::DELIVERED)
        } else if code == 4 {
            Some(OnlinePurchaseState::LOST)
        } else {
            None
        }
    }

    /// No transition leaves a rejected, delivered or lost purchase.
    pub open spec fn is_terminal(self) -> bool {
        self == OnlinePurchaseState::REJECTED || self == OnlinePurchaseState::DELIVERED || self
            == OnlinePurchaseState::LOST
    }

    /// The transitions of the machine: a received purchase is reserved or
    /// rejected, a reserved one is delivered or lost.
    pub open spec fn can_become(self, next: OnlinePurchaseState) -> bool {
        match self {
            OnlinePurchaseState::RECEIVED => next == OnlinePurchaseState::RESERVED || next
                == OnlinePurchaseState::REJECTED,
            OnlinePurchaseState::RESERVED => next == OnlinePurchaseState::DELIVERED || next
                == OnlinePurchaseState::LOST,
            _ => false,
        }
    }

    /// The label of the state as the terminal shows it.
    pub fn string_to_print(&self) -> (shown: String)
        ensures
            match self.label().1 {
                None => shown@ == self.label().0,
                Some(code) => shows(shown@, self.label().0, code),
            },
    {
        match self {
            OnlinePurchaseState::RECEIVED => "RECIBIDO".to_owned(),
            OnlinePurchaseState::RESERVED => {
                proof {
                    reveal_strlit("RESERVADO");
                }
                yellow("RESERVADO")
            },
            OnlinePurchaseState::REJECTED => {
                proof {
                    reveal_strlit("NO STOCK");
                }
                red("NO STOCK")
            },
            OnlinePurchaseState::DELIVERED => {
                proof {
                    reveal_strlit("ENTREGADO");
                }
                green("ENTREGADO")
            },
            OnlinePurchaseState::LOST => {
                proof {
                    reveal_strlit("PERDIDO");
                }
                red("PERDIDO")
            },
        }
    }

    /// Draws the outcome of a delivery: the purchase arrives or is lost.
    /// Which of the two is a matter of chance; `outcome_of_draw` says which
    /// draw gives which.
    pub fn deliver_attempt(&mut self)
        ensures
            *final(self) == OnlinePurchaseState::DELIVERED || *final(self)
                == OnlinePurchaseState::LOST,
            OnlinePurchaseState::RESERVED.can_become(*final(self)),
            final(self).is_terminal(),
    {
        let is_delivered = draw_ratio(DELIVER_RATE_HITS, DELIVER_RATE_OUT_OF);
        *self = outcome_of_draw(is_delivered);
    }

    /// The state that a wire code stands for, if it stands for one.
    pub fn from_int(code: u8) -> (state: Option<OnlinePurchaseState>)
        ensures
            state == OnlinePurchaseState::of_code(code),
    {
        match code {
            0 => Some(OnlinePurchaseState::RECEIVED),
            1 => Some(OnlinePurchaseState::RESERVED),
            2 => Some(OnlinePurchaseState::REJECTED),
            3 => Some(OnlinePurchaseState::DELIVERED),
            4 => Some(OnlinePurchaseState::LOST),
            _ => None,
        }
    }

    /// The code of the state on the wire.
    pub fn to_int(&self) -> (code: u8)
        ensures
            code == self.code(),
    {
        match self {
            OnlinePurchaseState::RECEIVED => 0,
            OnlinePurchaseState::RESERVED => 1,
            OnlinePurchaseState::REJECTED => 2,
            OnlinePurchaseState::DELIVERED => 3,
            OnlinePurchaseState::LOST => 4,
        }
    }

    /// The machine stops in its terminal states, and a delivery attempt ends
    /// in one of them.
    pub proof fn lemma_terminal_states_are_final(self, next: OnlinePurchaseState)
        ensures
            self.is_terminal() ==> !self.can_become(next),
            OnlinePurchaseState::RESERVED.can_become(next) ==> next.is_terminal(),
            OnlinePurchaseState::RECEIVED.can_become(next) ==> next
                == OnlinePurchaseState::RESERVED || next.is_terminal(),
    {
    }

    /// Every state has a code from 0 to 4 that stands for it alone.
    pub proof fn lemma_code_reads_back(self)
        ensures
            self.code() <= 4,
            OnlinePurchaseState::of_code(self.code()) == Some(self),
    {
    }

    /// A code stands for a state exactly when it is at most 4, and the
    /// state's code is then that code.
    pub proof fn lemma_state_of_code(code: u8)
        ensures
            OnlinePurchaseState::of_code(code) is Some <==> code <= 4,
            OnlinePurchaseState::of_code(code) matches Some(state) ==> state.code() == code,
    {
    }
}

/// The state that a delivery ends in: delivered where the draw hit, lost
/// where it did not.
pub fn outcome_of_draw(delivered: bool) -> (state: OnlinePurchaseState)
    ensures
        state == if delivered {
            OnlinePurchaseState::DELIVERED
        } else {
            OnlinePurchaseState::LOST
        },
{
    if delivered {
        OnlinePurchaseState::DELIVERED
    } else {
        OnlinePurchaseState::LOST
    }
}

} // verus!
