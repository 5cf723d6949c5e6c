//! Node configuration: election timing bounds, the heartbeat period, and the
//! switches that enable the timers, together with startup validation and the
//! command-line grammar for the boolean switches.

use vstd::prelude::*;

verus! {

use vstd::string::StringSliceAdditionalSpecFns;
use vstd::utf8::decode_utf8;

/// Errors reported by [`Config::validate`] at startup.
#[derive(Clone, Copy, Debug, PartialEq, Eq, Structural)]
pub enum ConfigError {
    /// The lower election-timeout bound exceeds the upper one.
    ElectionTimeout { min: u64, max: u64 },
    /// The heartbeat period is not strictly below the election-timeout lower
    /// bound, so a healthy leader could not keep followers from campaigning.
    ElectionTimeoutLTHeartBeat { election_timeout_min: u64, heartbeat_interval: u64 },
}

/// Runtime options of a node. Timeouts and periods are in milliseconds.
#[derive(Clone, Copy, Debug, PartialEq, Eq, Structural)]
pub struct Config {
    /// Lower bound on the randomized election timeout.
    pub election_timeout_min: u64,
    /// Upper bound on the randomized election timeout.
    pub election_timeout_max: u64,
    /// Leader heartbeat period; must be strictly below `election_timeout_min`.
    pub heartbeat_interval: u64,
    /// Master switch for all timers.
    pub enable_tick: bool,
    /// Enables leader heartbeats.
    pub enable_heartbeat: bool,
    /// Enables the election timer.
    pub enable_elect: bool,
}

impl Config {
    /// The default option values.
    pub open spec fn default_spec() -> Config {
        Config {
            election_timeout_min: 150,
            election_timeout_max: 300,
            heartbeat_interval: 50,
            enable_tick: true,
            enable_heartbeat: true,
            enable_elect: true,
        }
    }

    /// The two startup invariants: ordered timeout bounds, and a heartbeat
    /// period short enough to refresh election timers.
    pub open spec fn valid_spec(self) -> bool {
        self.election_timeout_min <= self.election_timeout_max
        && self.heartbeat_interval < self.election_timeout_min
    }

    /// Checks the startup invariants, reporting exactly which one fails.
    pub fn validate(&self) -> (r: Result<(), ConfigError>)
        ensures
            r is Ok <==> self.valid_spec(),
            self.election_timeout_min > self.election_timeout_max ==> r == Err::<(), ConfigError>(
                ConfigError::ElectionTimeout {
                    min: self.election_timeout_min,
                    max: self.election_timeout_max,
                },
            ),
            self.election_timeout_min <= self.election_timeout_max
                && self.heartbeat_interval >= self.election_timeout_min ==> r == Err::<
                (),
                ConfigError,
            >(
                ConfigError::ElectionTimeoutLTHeartBeat {
                    election_timeout_min: self.election_timeout_min,
                    heartbeat_interval: self.heartbeat_interval,
                },
            ),
    {
        if self.election_timeout_min > self.election_timeout_max {
            Err(ConfigError::ElectionTimeout {
                min: self.election_timeout_min,
                max: self.election_timeout_max,
            })
        } else if self.heartbeat_interval >= self.election_timeout_min {
            Err(ConfigError::ElectionTimeoutLTHeartBeat {
                election_timeout_min: self.election_timeout_min,
                heartbeat_interval: self.heartbeat_interval,
            })
        } else {
            Ok(())
        }
    }
}

impl Default for Config {
    /// Default timing: 150..300 ms election timeout, 50 ms heartbeat, all
    /// timers enabled.
    fn default() -> (c: Self)
        ensures
            c == Config::default_spec(),
    {
        Config {
            election_timeout_min: 150,
            election_timeout_max: 300,
            heartbeat_interval: 50,
            enable_tick: true,
            enable_heartbeat: true,
            enable_elect: true,
        }
    }
}

/// What one command-line argument does to one boolean switch, given the
/// switch's three accepted spellings: the bare flag (true), `=true`, and
/// `=false`. Any other argument leaves the switch as it is.
pub open spec fn flag_update(
    arg: Seq<char>,
    bare: Seq<char>,
    on: Seq<char>,
    off: Seq<char>,
    cur: bool,
) -> bool {
    if arg == bare || arg == on {
        true
    } else if arg == off {
        false
    } else {
        cur
    }
}

/// Folds [`flag_update`] over the arguments left to right: the last spelling
/// of a switch wins.
pub open spec fn flag_state(
    args: Seq<Seq<char>>,
    bare: Seq<char>,
    on: Seq<char>,
    off: Seq<char>,
    cur: bool,
) -> bool
    decreases args.len(),
{
    if args.len() == 0 {
        cur
    } else {
        flag_state(args.drop_first(), bare, on, off, flag_update(args[0], bare, on, off, cur))
    }
}

/// The character views of the arguments past the program name.
pub open spec fn arg_views(args: Seq<String>) -> Seq<Seq<char>> {
    if args.len() == 0 {
        Seq::empty()
    } else {
        args.map_values(|s: String| s@).skip(1)
    }
}

/// String equality by content. The byte encodings of equal character
/// sequences agree, and utf-8 decoding recovers the characters, so comparing
/// the byte slices decides equality of the views.
fn str_eq(a: &str, b: &str) -> (r: bool)
    ensures
        r == (a@ == b@),
{
    proof {
        vstd::utf8::encode_utf8_decode_utf8(a@);
        vstd::utf8::encode_utf8_decode_utf8(b@);
    }
    let ab = a.as_bytes();
    let bb = b.as_bytes();
    if ab.len() != bb.len() {
        return false;
    }
    let n = ab.len();
    let mut i: usize = 0;
    while i < n
        invariant
            i <= n,
            n == ab@.len(),
            n == bb@.len(),
            ab@ == a.spec_bytes(),
            bb@ == b.spec_bytes(),
            decode_utf8(a.spec_bytes()) == a@,
            decode_utf8(b.spec_bytes()) == b@,
            forall|j: int| 0 <= j < i ==> ab@[j] == bb@[j],
        decreases n - i,
    {
        let x = *vstd::slice::slice_index_get(ab, i);
        let y = *vstd::slice::slice_index_get(bb, i);
        if x != y {
            assert(a.spec_bytes() != b.spec_bytes());
            return false;
        }
        i += 1;
    }
    assert(ab@ =~= bb@);
    true
}

impl Config {
    /// Builds a configuration from command-line arguments. The first argument
    /// is the program name and is skipped; the three boolean switches accept
    /// the bare form (true), `=true` and `=false`; every other argument is
    /// ignored. Timing options keep their defaults.
    pub fn build(args: &Vec<String>) -> (r: Result<Config, ConfigError>)
        ensures
            r is Ok,
            ({
                let tail = arg_views(args@);
                r == Ok::<Config, ConfigError>(Config {
                    enable_tick: flag_state(
                        tail,
                        "--enable-tick"@,
                        "--enable-tick=true"@,
                        "--enable-tick=false"@,
                        true,
                    ),
                    enable_heartbeat: flag_state(
                        tail,
                        "--enable-heartbeat"@,
                        "--enable-heartbeat=true"@,
                        "--enable-heartbeat=false"@,
                        true,
                    ),
                    enable_elect: flag_state(
                        tail,
                        "--enable-elect"@,
                        "--enable-elect=true"@,
                        "--enable-elect=false"@,
                        true,
                    ),
                    ..Config::default_spec()
                })
            }),
    {
        let ghost tail = arg_views(args@);
        let mut tick: bool = true;
        let mut heartbeat: bool = true;
        let mut elect: bool = true;
        let n = args.len();
        let mut i: usize = if n == 0 {
            0
        } else {
            1
        };
        proof {
            if args@.len() > 0 {
                assert(tail.skip(0) =~= tail);
            }
        }
        while i < n
            invariant
                1 <= i <= n || (n == 0 && i == 0),
                n == args@.len(),
                tail == arg_views(args@),
                n == 0 ==> tick && heartbeat && elect,
                n > 0 ==> flag_state(
                    tail,
                    "--enable-tick"@,
                    "--enable-tick=true"@,
                    "--enable-tick=false"@,
                    true,
                ) == flag_state(
                    tail.skip(i - 1),
                    "--enable-tick"@,
                    "--enable-tick=true"@,
                    "--enable-tick=false"@,
                    tick,
                ),
                n > 0 ==> flag_state(
                    tail,
                    "--enable-heartbeat"@,
                    "--enable-heartbeat=true"@,
                    "--enable-heartbeat=false"@,
                    true,
                ) == flag_state(
                    tail.skip(i - 1),
                    "--enable-heartbeat"@,
                    "--enable-heartbeat=true"@,
                    "--enable-heartbeat=false"@,
                    heartbeat,
                ),
                n > 0 ==> flag_state(
                    tail,
                    "--enable-elect"@,
                    "--enable-elect=true"@,
                    "--enable-elect=false"@,
                    true,
                ) == flag_state(
                    tail.skip(i - 1),
                    "--enable-elect"@,
                    "--enable-elect=true"@,
                    "--enable-elect=false"@,
                    elect,
                ),
            decreases n - i,
        {
            let arg: &str = args[i].as_str();
            proof {
                assert(tail.skip(i - 1)[0] == arg@);
                assert(tail.skip(i - 1).drop_first() =~= tail.skip(i + 1 - 1));
            }
            if str_eq(arg, "--enable-tick") || str_eq(arg, "--enable-tick=true") {
                tick = true;
            } else if str_eq(arg, "--enable-tick=false") {
                tick = false;
            }
            if str_eq(arg, "--enable-heartbeat") || str_eq(arg, "--enable-heartbeat=true") {
                heartbeat = true;
            } else if str_eq(arg, "--enable-heartbeat=false") {
                heartbeat = false;
            }
            if str_eq(arg, "--enable-elect") || str_eq(arg, "--enable-elect=true") {
                elect = true;
            } else if str_eq(arg, "--enable-elect=false") {
                elect = false;
            }
            i += 1;
        }
        proof {
            if n > 0 {
                assert(tail.skip(i - 1) =~= Seq::<Seq<char>>::empty());
            } else {
                assert(tail =~= Seq::<Seq<char>>::empty());
            }
        }
        Ok(Config {
            enable_tick: tick,
            enable_heartbeat: heartbeat,
            enable_elect: elect,
            ..Config::default()
        })
    }
}

} // verus!
