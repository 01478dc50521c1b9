//! The runtime configuration: free-text reason, color and timestamp
//! toggles, and the frame delay that each speed name stands for.
use vstd::prelude::*;

verus! {

/// Error for a speed name outside the accepted three.
#[derive(Clone, Copy, Debug, PartialEq, Eq, Structural)]
pub enum ConfigError {
    InvalidSpeed,
}

/// Whether two strings hold the same characters.
fn str_eq(a: &str, b: &str) -> (r: bool)
    ensures
        r == (a@ == b@),
{
    let la = a.unicode_len();
    let lb = b.unicode_len();
    if la != lb {
        return false;
    }
    let mut i: usize = 0;
    while i < la
        invariant
            i <= la,
            la == a@.len(),
            la == b@.len(),
            forall|j: int| 0 <= j < i ==> a@[j] == b@[j],
        decreases la - i,
    {
        if a.get_char(i) != b.get_char(i) {
            return false;
        }
        i += 1;
    }
    proof {
        assert(a@ =~= b@);
    }
    true
}

/// What the program was asked to do: the footer's reason text, the color
/// and timestamp toggles, and the frame delay in milliseconds.
pub struct Config {
    pub reason: Option<String>,
    pub colored: bool,
    pub show_timestamp: bool,
    pub fps: u64,
}

impl Config {
    /// Builds the configuration from the parsed command-line values: the
    /// toggles arrive negated, and the speed name maps fast to 75, normal
    /// to 100 and slow to 150 milliseconds; any other name is refused.
    pub fn new(
        reason: Option<String>,
        without_color: bool,
        without_timestamp: bool,
        speed: &str,
    ) -> (r: Result<Config, ConfigError>)
        ensures
            r.is_ok() <==> (speed@ == "slow"@ || speed@ == "normal"@ || speed@ == "fast"@),
            match r {
                Ok(c) => {
                    &&& c.reason == reason
                    &&& c.colored == !without_color
                    &&& c.show_timestamp == !without_timestamp
                    &&& c.fps == if speed@ == "slow"@ {
                        150int
                    } else if speed@ == "normal"@ {
                        100int
                    } else {
                        75int
                    }
                },
                Err(e) => e == ConfigError::InvalidSpeed,
            },
    {
        let fps: u64 = if str_eq(speed, "slow") {
            150
        } else if str_eq(speed, "normal") {
            100
        } else if str_eq(speed, "fast") {
            75
        } else {
            return Err(ConfigError::InvalidSpeed);
        };
        Ok(Config { reason, colored: !without_color, show_timestamp: !without_timestamp, fps })
    }

    /// Whether any footer line will be shown at exit.
    pub fn is_exist_footer(&self) -> (r: bool)
        ensures
            r == (self.show_timestamp || self.reason is Some),
    {
        self.show_timestamp || self.reason.is_some()
    }
}

} // verus!
