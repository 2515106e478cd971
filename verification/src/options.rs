//! Config value utilities.
//!
//! A config value string holds a name and an optional bracketed option list,
//! as in a value whose name is followed by `[load=0.8]`.

use vstd::prelude::*;

use vstd::seq_lib::group_filter_ensures;

verus! {

broadcast use group_filter_ensures;

/// Parses a config value string into its name and its option part: the name
/// is everything before the first `[`; the option part, absent without a
/// `[`, holds the rest with every `]` removed.
pub fn parse_config_value(config_str: &str) -> (r: (String, Option<String>))
    ensures
        ({
            let s = config_str@;
            if forall|i: int| 0 <= i < s.len() ==> s[i] != '[' {
                r.0@ == s && r.1 is None
            } else {
                exists|k: int|
                    0 <= k < s.len() && s[k] == '[' && (forall|i: int| 0 <= i < k ==> s[i] != '[')
                        && r.0@ == s.subrange(0, k) && (r.1 matches Some(o) && o@ == s.subrange(
                        k + 1,
                        s.len() as int,
                    ).filter(|c: char| c != ']'))
            }
        }),
{
    let n = config_str.unicode_len();
    let mut k: usize = 0;
    while k < n
        invariant
            n == config_str@.len(),
            k <= n,
            forall|i: int| 0 <= i < k ==> config_str@[i] != '[',
        decreases n - k,
    {
        if config_str.get_char(k) == '[' {
            let name = config_str.substring_char(0, k).to_owned();
            let mut opts = String::new();
            proof {
                reveal(Seq::filter);
                assert(config_str@.subrange(k + 1, k + 1).len() == 0);
                assert(opts@ =~= config_str@.subrange(k + 1, k + 1).filter(|c: char| c != ']'));
            }
            let mut j: usize = k + 1;
            while j < n
                invariant
                    n == config_str@.len(),
                    k < j <= n,
                    k < n,
                    opts@ == config_str@.subrange(k + 1, j as int).filter(|c: char| c != ']'),
                decreases n - j,
            {
                let ghost prefix = config_str@.subrange(k + 1, j as int);
                let c = config_str.get_char(j);
                if c != ']' {
                    let piece = config_str.substring_char(j, j + 1);
                    opts.append(piece);
                    proof {
                        assert(piece@ =~= seq![config_str@[j as int]]);
                        assert(opts@ =~= prefix.filter(|x: char| x != ']').push(
                            config_str@[j as int],
                        ));
                    }
                }
                proof {
                    reveal(Seq::filter);
                    let next = config_str@.subrange(k + 1, j + 1);
                    assert(next =~= prefix.push(config_str@[j as int]));
                    assert(next.drop_last() =~= prefix);
                    assert(next.last() == config_str@[j as int]);
                    assert(next.filter(|x: char| x != ']') == (if config_str@[j as int] != ']' {
                        prefix.filter(|x: char| x != ']').push(config_str@[j as int])
                    } else {
                        prefix.filter(|x: char| x != ']')
                    }));
                }
                j = j + 1;
            }
            proof {
                assert(config_str@.subrange(k + 1, n as int) == config_str@.subrange(
                    k + 1,
                    j as int,
                ));
            }
            return (name, Some(opts));
        }
        k = k + 1;
    }
    (config_str.to_owned(), None)
}

/// The position of the first occurrence of `c` in `s` at or after `from`,
/// or the length of `s` when there is none.
pub open spec fn first_at(s: Seq<char>, from: int, c: char) -> int
    decreases s.len() - from,
{
    if from < 0 || from >= s.len() {
        s.len() as int
    } else if s[from] == c {
        from
    } else {
        first_at(s, from + 1, c)
    }
}

/// `first_at` finds the first occurrence: nothing before it matches, and it
/// matches unless the end was reached.
pub proof fn lemma_first_at(s: Seq<char>, from: int, c: char)
    requires
        0 <= from <= s.len(),
    ensures
        from <= first_at(s, from, c) <= s.len(),
        forall|i: int| from <= i < first_at(s, from, c) ==> s[i] != c,
        first_at(s, from, c) < s.len() ==> s[first_at(s, from, c)] == c,
    decreases s.len() - from,
{
    if from < s.len() && s[from] != c {
        lemma_first_at(s, from + 1, c);
    }
}

/// The `name = value` pairs of a comma-separated option string: each segment
/// runs to the next comma; a segment with an equals sign yields the pair of
/// what stands before its first equals sign and what stands after it; a
/// segment without one yields nothing.
pub open spec fn parse_opts(s: Seq<char>, from: int) -> Seq<(Seq<char>, Seq<char>)>
    decreases s.len() + 1 - from,
    via parse_opts_decreases
{
    if from < 0 || from >= s.len() {
        Seq::empty()
    } else {
        let stop = first_at(s, from, ',');
        let eq = first_at(s, from, '=');
        let rest = parse_opts(s, stop + 1);
        if eq < stop {
            seq![(s.subrange(from, eq), s.subrange(eq + 1, stop))] + rest
        } else {
            rest
        }
    }
}

/// The segment scan of `parse_opts` always moves past at least one
/// character.
#[via_fn]
proof fn parse_opts_decreases(s: Seq<char>, from: int) {
    if !(from < 0 || from >= s.len()) {
        lemma_first_at(s, from, ',');
    }
}

/// The character views of a sequence of string pairs.
pub open spec fn pair_views(r: Seq<(String, String)>) -> Seq<(Seq<char>, Seq<char>)> {
    r.map_values(|p: (String, String)| (p.0@, p.1@))
}

/// Parses an option string of comma-separated `name=value` entries into
/// pairs: exactly the pairs that `parse_opts` reads off the characters.
pub fn parse_options(options_str: &str) -> (r: Vec<(String, String)>)
    ensures
        pair_views(r@) == parse_opts(options_str@, 0),
{
    let n = options_str.unicode_len();
    let mut out: Vec<(String, String)> = Vec::new();
    let mut start: usize = 0;
    proof {
        assert(pair_views(out@) =~= Seq::<(Seq<char>, Seq<char>)>::empty());
    }
    while start < n
        invariant
            n == options_str@.len(),
            start <= n,
            pair_views(out@) + parse_opts(options_str@, start as int) == parse_opts(
                options_str@,
                0,
            ),
        decreases n - start,
    {
        let ghost s = options_str@;
        let ghost from = start as int;
        // find the end of the current comma-separated segment
        let mut stop: usize = start;
        while stop < n && options_str.get_char(stop) != ','
            invariant
                n == options_str@.len(),
                start <= stop <= n,
                forall|i: int| start <= i < stop ==> options_str@[i] != ',',
            decreases n - stop,
        {
            stop = stop + 1;
        }
        proof {
            lemma_first_at(s, from, ',');
            // the scan found the first comma
            assert(first_at(s, from, ',') == stop as int) by {
                let fa = first_at(s, from, ',');
                if fa < stop {
                    assert(s[fa] == ',');
                }
                if fa > stop {
                    assert(s[stop as int] != ',');
                }
            }
        }
        // find the first equals sign of the segment
        let mut eq: usize = start;
        while eq < stop && options_str.get_char(eq) != '='
            invariant
                n == options_str@.len(),
                start <= eq <= stop <= n,
                forall|i: int| start <= i < eq ==> options_str@[i] != '=',
            decreases stop - eq,
        {
            eq = eq + 1;
        }
        proof {
            lemma_first_at(s, from, '=');
            if eq < stop {
                assert(first_at(s, from, '=') == eq as int) by {
                    let fa = first_at(s, from, '=');
                    if fa < eq {
                        assert(s[fa] != '=');
                    }
                    if fa > eq {
                        assert(s[eq as int] == '=');
                    }
                }
            } else {
                assert(first_at(s, from, '=') >= stop as int) by {
                    let fa = first_at(s, from, '=');
                    if fa < stop {
                        assert(s[fa] == '=');
                        assert(s[fa] != '=');
                    }
                }
            }
        }
        let ghost out_pre = out@;
        if eq < stop {
            let name = options_str.substring_char(start, eq).to_owned();
            let value = options_str.substring_char(eq + 1, stop).to_owned();
            out.push((name, value));
            proof {
                assert(pair_views(out@) =~= pair_views(out_pre).push(
                    (s.subrange(from, eq as int), s.subrange(eq + 1, stop as int)),
                ));
                assert(parse_opts(s, from) == seq![
                    (s.subrange(from, eq as int), s.subrange(eq + 1, stop as int)),
                ] + parse_opts(s, stop + 1));
                assert(pair_views(out@) + parse_opts(s, stop + 1) =~= pair_views(out_pre)
                    + parse_opts(s, from));
            }
        } else {
            proof {
                assert(parse_opts(s, from) == parse_opts(s, stop + 1));
            }
        }
        if stop < n {
            start = stop + 1;
        } else {
            start = n;
            proof {
                // past a final segment both tails read nothing
                assert(parse_opts(s, stop + 1) =~= Seq::<(Seq<char>, Seq<char>)>::empty());
                assert(parse_opts(s, n as int) =~= Seq::<(Seq<char>, Seq<char>)>::empty());
            }
        }
        proof {
            assert(pair_views(out@) + parse_opts(s, start as int) == parse_opts(s, 0));
        }
    }
    proof {
        assert(parse_opts(options_str@, start as int) =~= Seq::<(Seq<char>, Seq<char>)>::empty());
        assert(pair_views(out@) =~= pair_views(out@) + parse_opts(options_str@, start as int));
    }
    out
}

} // verus!
