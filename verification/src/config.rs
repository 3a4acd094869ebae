//! Start-up configuration: the three positional arguments.

use vstd::prelude::*;

verus! {

/// `c` is a decimal digit.
pub open spec fn is_dec_digit(c: char) -> bool {
    48 <= c as u32 <= 57
}

/// The numeric value of a digit character.
pub open spec fn digit_val(c: char) -> int {
    c as u32 - 48
}

/// Every character of `s` is a decimal digit.
pub open spec fn all_digits(s: Seq<char>) -> bool {
    forall|i: int| 0 <= i < s.len() ==> is_dec_digit(#[trigger] s[i])
}

/// The value of `s` read as a decimal numeral.
pub open spec fn dec_value(s: Seq<char>) -> int
    decreases s.len(),
{
    if s.len() == 0 {
        0
    } else {
        dec_value(s.drop_last()) * 10 + digit_val(s.last())
    }
}

proof fn lemma_dec_value_nonneg(s: Seq<char>)
    requires
        all_digits(s),
    ensures
        dec_value(s) >= 0,
    decreases s.len(),
{
    if s.len() > 0 {
        assert(all_digits(s.drop_last())) by {
            assert(forall|i: int|
                0 <= i < s.drop_last().len() ==> #[trigger] s.drop_last()[i] == s[i]);
        }
        lemma_dec_value_nonneg(s.drop_last());
        assert(dec_value(s.drop_last()) * 10 >= 0) by (nonlinear_arith)
            requires
                dec_value(s.drop_last()) >= 0,
        ;
    }
}

proof fn lemma_dec_value_prefix(s: Seq<char>, k: int)
    requires
        all_digits(s),
        0 <= k <= s.len(),
    ensures
        dec_value(s.take(k)) <= dec_value(s),
    decreases s.len() - k,
{
    if k < s.len() {
        let d = s.drop_last();
        assert(all_digits(d)) by {
            assert(forall|i: int| 0 <= i < d.len() ==> #[trigger] d[i] == s[i]);
        }
        assert(s.take(k) =~= d.take(k));
        lemma_dec_value_prefix(d, k);
        lemma_dec_value_nonneg(d);
        assert(dec_value(d) * 10 >= dec_value(d)) by (nonlinear_arith)
            requires
                dec_value(d) >= 0,
        ;
        assert(dec_value(s) >= dec_value(d));
    } else {
        assert(s.take(k) =~= s);
    }
}

/// Parse a decimal numeral. Returns the value exactly when `s` is a
/// non-empty string of digits whose value fits in a `u64`.
pub fn parse_u64(s: &str) -> (r: Option<u64>)
    ensures
        match r {
            Some(v) => s@.len() > 0 && all_digits(s@) && v as int == dec_value(s@),
            None => s@.len() == 0 || !all_digits(s@) || dec_value(s@) > u64::MAX,
        },
{
    let n = s.unicode_len();
    if n == 0 {
        return None;
    }
    let mut acc: u64 = 0;
    let mut i: usize = 0;
    while i < n
        invariant
            n == s@.len(),
            i <= n,
            all_digits(s@.take(i as int)),
            acc as int == dec_value(s@.take(i as int)),
        decreases n - i,
    {
        let c = s.get_char(i);
        let cv = c as u32;
        if cv < 48 || cv > 57 {
            proof {
                assert(!is_dec_digit(s@[i as int]));
            }
            return None;
        }
        let d = (cv - 48) as u64;
        proof {
            assert(s@.take(i + 1).drop_last() =~= s@.take(i as int));
            assert(s@.take(i + 1).last() == s@[i as int]);
            assert(all_digits(s@.take(i + 1))) by {
                assert(forall|x: int|
                    0 <= x < i ==> #[trigger] s@.take(i + 1)[x] == s@.take(i as int)[x]);
            }
        }
        if acc > (u64::MAX - d) / 10 {
            proof {
                let q = ((u64::MAX - d) / 10) as int;
                assert(q * 10 + (u64::MAX - d) as int % 10 == (u64::MAX - d) as int);
                assert(acc as int * 10 >= (q + 1) * 10) by (nonlinear_arith)
                    requires
                        acc as int >= q + 1,
                ;
                assert((q + 1) * 10 == q * 10 + 10);
                assert(acc as int * 10 + d as int > u64::MAX);
                assert(dec_value(s@.take(i + 1)) > u64::MAX);
                if all_digits(s@) {
                    lemma_dec_value_prefix(s@, i + 1);
                }
            }
            return None;
        }
        proof {
            let q = ((u64::MAX - d) / 10) as int;
            assert(q * 10 + (u64::MAX - d) as int % 10 == (u64::MAX - d) as int);
            assert(acc as int * 10 <= q * 10) by (nonlinear_arith)
                requires
                    acc as int <= q,
            ;
        }
        acc = acc * 10 + d;
        i = i + 1;
    }
    proof {
        assert(s@.take(n as int) =~= s@);
    }
    Some(acc)
}

/// The three positional arguments: the durable log's path, the directory
/// to observe, and the debounce window in milliseconds.
#[derive(Clone, Debug)]
pub struct Config {
    pub store_path: String,
    pub watch_path: String,
    pub debounce_time_ms: u64,
}

impl Config {
    /// Read the configuration from the argument list (the first element
    /// is the binary's name). Fails exactly when an argument is missing
    /// or the debounce time is not a decimal numeral fitting in a `u64`,
    /// and names the offending argument in the error.
    pub fn new(args: &Vec<String>) -> (r: Result<Config, &'static str>)
        ensures
            match r {
                Ok(c) => args@.len() >= 4 && c.store_path@ == args@[1]@ && c.watch_path@
                    == args@[2]@ && args@[3]@.len() > 0 && all_digits(args@[3]@)
                    && c.debounce_time_ms as int == dec_value(args@[3]@),
                Err(e) => {
                    &&& args@.len() < 4 || args@[3]@.len() == 0 || !all_digits(args@[3]@)
                        || dec_value(args@[3]@) > u64::MAX
                    &&& args@.len() < 2 ==> e@ == "Didn't get a store path"@
                    &&& args@.len() == 2 ==> e@ == "Didn't get a watch path"@
                    &&& args@.len() == 3 ==> e@ == "Didn't get a debounce time"@
                    &&& args@.len() >= 4 ==> e@ == "Didn't get a valid debounce time"@
                },
            },
    {
        if args.len() < 2 {
            return Err("Didn't get a store path");
        }
        if args.len() < 3 {
            return Err("Didn't get a watch path");
        }
        if args.len() < 4 {
            return Err("Didn't get a debounce time");
        }
        let parsed = parse_u64(args[3].as_str());
        match parsed {
            Some(ms) => Ok(
                Config {
                    store_path: args[1].clone(),
                    watch_path: args[2].clone(),
                    debounce_time_ms: ms,
                },
            ),
            None => Err("Didn't get a valid debounce time"),
        }
    }
}

} // verus!
