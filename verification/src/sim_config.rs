//! Plain configuration records of a cluster simulation, and the expansion
//! of host-group names.

use vstd::prelude::*;

verus! {

/// Configuration of one scheduler: its name or name prefix, the algorithm it
/// runs, and how many instances to create.
#[derive(Clone, Debug)]
pub struct SchedulerConfig {
    /// Name of a single scheduler.
    pub name: Option<String>,
    /// Name prefix of a group of schedulers.
    pub name_prefix: Option<String>,
    /// The scheduling algorithm to run.
    pub algorithm: String,
    /// How many scheduler instances to create.
    pub count: Option<u32>,
}

/// Configuration of one workload source: its kind, an optional trace path,
/// and free-form options.
#[derive(Clone, Debug)]
pub struct ClusterWorkloadConfig {
    /// Kind of the workload source.
    pub kind: String,
    /// Path of a trace file, for trace-driven sources.
    pub path: Option<String>,
    /// Free-form `name = value` options.
    pub options: Vec<(String, String)>,
}


/// The decimal digit character of a value below ten.
pub open spec fn spec_digit(d: int) -> char {
    if d == 0 {
        '0'
    } else if d == 1 {
        '1'
    } else if d == 2 {
        '2'
    } else if d == 3 {
        '3'
    } else if d == 4 {
        '4'
    } else if d == 5 {
        '5'
    } else if d == 6 {
        '6'
    } else if d == 7 {
        '7'
    } else if d == 8 {
        '8'
    } else {
        '9'
    }
}

/// The decimal digits of a non-negative value, most significant first.
pub open spec fn spec_decimal(n: int) -> Seq<char>
    decreases n,
{
    if n < 10 {
        seq![spec_digit(n)]
    } else {
        spec_decimal(n / 10).push(spec_digit(n % 10))
    }
}

/// The one-character string of a decimal digit.
fn digit_str(d: u32) -> (r: &'static str)
    requires
        d < 10,
    ensures
        r@ == seq![spec_digit(d as int)],
{
    proof {
        reveal_strlit("0");
        reveal_strlit("1");
        reveal_strlit("2");
        reveal_strlit("3");
        reveal_strlit("4");
        reveal_strlit("5");
        reveal_strlit("6");
        reveal_strlit("7");
        reveal_strlit("8");
        reveal_strlit("9");
    }
    let r = if d == 0 {
        "0"
    } else if d == 1 {
        "1"
    } else if d == 2 {
        "2"
    } else if d == 3 {
        "3"
    } else if d == 4 {
        "4"
    } else if d == 5 {
        "5"
    } else if d == 6 {
        "6"
    } else if d == 7 {
        "7"
    } else if d == 8 {
        "8"
    } else {
        "9"
    };
    proof {
        assert(r@ =~= seq![spec_digit(d as int)]);
    }
    r
}

/// Writes a value in decimal.
pub fn u32_to_decimal(n: u32) -> (r: String)
    ensures
        r@ == spec_decimal(n as int),
    decreases n,
{
    if n < 10 {
        digit_str(n).to_owned()
    } else {
        let mut s = u32_to_decimal(n / 10);
        s.append(digit_str(n % 10));
        proof {
            assert(s@ =~= spec_decimal((n / 10) as int).push(spec_digit((n % 10) as int)));
        }
        s
    }
}

/// The name a member of a host group gets: a group of one host uses the
/// plain name; a larger group numbers its hosts under the prefix, as
/// `prefix`, a dash, and the index in decimal. Nothing is made up when the
/// needed field is missing.
pub fn host_name(name: &Option<String>, name_prefix: &Option<String>, count: u32, idx: u32) -> (r:
    Option<String>)
    ensures
        count <= 1 ==> match name {
            Some(n) => r matches Some(o) && o@ == n@,
            None => r is None,
        },
        count > 1 ==> match name_prefix {
            Some(p) => r matches Some(o) && o@ == p@ + seq!['-'] + spec_decimal(idx as int),
            None => r is None,
        },
{
    if count <= 1 {
        match name {
            Some(n) => Some(n.clone()),
            None => None,
        }
    } else {
        match name_prefix {
            Some(p) => {
                let mut s = p.clone();
                proof {
                    reveal_strlit("-");
                }
                s.append("-");
                let digits = u32_to_decimal(idx);
                s.append(digits.as_str());
                proof {
                    assert(s@ =~= p@ + seq!['-'] + spec_decimal(idx as int));
                }
                Some(s)
            },
            None => None,
        }
    }
}

} // verus!
