//! Small text helpers of the query surface: decimal rendering, two-digit
//! padding, megabyte formatting, and the store-location default.
use vstd::prelude::*;

verus! {

/// The character of one decimal digit.
pub open spec fn digit_char(d: int) -> char {
    if d == 0 {
        '0'
    } else if d == 1 {
        '1'
    } else if d == 2 {
        '2'
    } else if d == 3 {
        '3'
    } else if d == 4 {
        '4'
    } else if d == 5 {
        '5'
    } else if d == 6 {
        '6'
    } else if d == 7 {
        '7'
    } else if d == 8 {
        '8'
    } else {
        '9'
    }
}

/// The decimal text of a non-negative number.
pub open spec fn dec_str(n: int) -> Seq<char>
    decreases n,
{
    if n < 10 {
        seq![digit_char(n)]
    } else {
        dec_str(n / 10).push(digit_char(n % 10))
    }
}

/// The decimal text of a number, with a leading minus where negative.
pub open spec fn int_str(n: int) -> Seq<char> {
    if n < 0 {
        seq!['-'] + dec_str(-n)
    } else {
        dec_str(n)
    }
}

fn digit_str(d: u64) -> (r: &'static str)
    requires
        d < 10,
    ensures
        r@ == seq![digit_char(d as int)],
{
    if d == 0 {
        proof {
            reveal_strlit("0");
            assert("0"@ =~= seq![digit_char(0)]);
        }
        "0"
    } else if d == 1 {
        proof {
            reveal_strlit("1");
            assert("1"@ =~= seq![digit_char(1)]);
        }
        "1"
    } else if d == 2 {
        proof {
            reveal_strlit("2");
            assert("2"@ =~= seq![digit_char(2)]);
        }
        "2"
    } else if d == 3 {
        proof {
            reveal_strlit("3");
            assert("3"@ =~= seq![digit_char(3)]);
        }
        "3"
    } else if d == 4 {
        proof {
            reveal_strlit("4");
            assert("4"@ =~= seq![digit_char(4)]);
        }
        "4"
    } else if d == 5 {
        proof {
            reveal_strlit("5");
            assert("5"@ =~= seq![digit_char(5)]);
        }
        "5"
    } else if d == 6 {
        proof {
            reveal_strlit("6");
            assert("6"@ =~= seq![digit_char(6)]);
        }
        "6"
    } else if d == 7 {
        proof {
            reveal_strlit("7");
            assert("7"@ =~= seq![digit_char(7)]);
        }
        "7"
    } else if d == 8 {
        proof {
            reveal_strlit("8");
            assert("8"@ =~= seq![digit_char(8)]);
        }
        "8"
    } else {
        proof {
            reveal_strlit("9");
            assert("9"@ =~= seq![digit_char(9)]);
        }
        "9"
    }
}

/// The decimal text of `n`.
pub fn u64_to_string(n: u64) -> (r: String)
    ensures
        r@ == dec_str(n as int),
    decreases n,
{
    if n < 10 {
        String::from_str(digit_str(n))
    } else {
        let mut s = u64_to_string(n / 10);
        s.append(digit_str(n % 10));
        proof {
            assert(s@ =~= dec_str(n as int / 10).push(digit_char(n as int % 10)));
        }
        s
    }
}

/// The decimal text of `n`, with a leading minus where negative.
pub fn i64_to_string(n: i64) -> (r: String)
    ensures
        r@ == int_str(n as int),
{
    if n < 0 {
        let m: u64 = if n == i64::MIN {
            9_223_372_036_854_775_808
        } else {
            (-n) as u64
        };
        let digits = u64_to_string(m);
        let s = String::from_str("-").concat(digits.as_str());
        proof {
            reveal_strlit("-");
            assert(s@ =~= seq!['-'] + dec_str(-(n as int)));
        }
        s
    } else {
        u64_to_string(n as u64)
    }
}

/// Two-digit padding: numbers under ten get a leading zero.
pub fn pad2(n: i32) -> (r: String)
    ensures
        r@ == (if n < 10 {
            seq!['0'] + int_str(n as int)
        } else {
            int_str(n as int)
        }),
{
    if n < 10 {
        let digits = i64_to_string(n as i64);
        let s = String::from_str("0").concat(digits.as_str());
        proof {
            reveal_strlit("0");
            assert(s@ =~= seq!['0'] + int_str(n as int));
        }
        s
    } else {
        i64_to_string(n as i64)
    }
}

/// An ISO-8601 instant shown as it stands; a host with a local clock would
/// reformat it.
pub fn format_local(rfc3339: &str) -> (r: String)
    ensures
        r@ == rfc3339@,
{
    rfc3339.to_owned()
}

/// A leading minus for a negative number.
pub open spec fn sign_str(n: int) -> Seq<char> {
    if n < 0 {
        seq!['-']
    } else {
        Seq::empty()
    }
}

/// The text `format_megabytes` renders: a volume of a thousand megabytes or
/// more appears in gigabytes (1 GB = 1000 MB), to one decimal where the
/// rounded tenths call for one, else whole; smaller volumes appear in
/// megabytes.
pub open spec fn format_mb_spec(mb: int) -> Seq<char> {
    let a = if mb < 0 {
        -mb
    } else {
        mb
    };
    if a >= 1000 {
        let tenths = (a + 50) / 100;
        if tenths % 10 == 0 {
            sign_str(mb) + dec_str((a + 500) / 1000) + " GB"@
        } else {
            sign_str(mb) + dec_str(tenths / 10) + "."@ + dec_str(tenths % 10) + " GB"@
        }
    } else {
        int_str(mb) + " MB"@
    }
}

/// Renders a number of megabytes for display.
pub fn format_megabytes(mb: i32) -> (r: String)
    requires
        mb > i32::MIN,
    ensures
        r@ == format_mb_spec(mb as int),
{
    let a: i64 = if mb < 0 {
        -(mb as i64)
    } else {
        mb as i64
    };
    if a >= 1000 {
        let tenths: i64 = (a + 50) / 100;
        let mut s = if mb < 0 {
            let m = String::from_str("-");
            proof {
                reveal_strlit("-");
                assert(m@ =~= sign_str(mb as int));
            }
            m
        } else {
            let m = String::new();
            proof {
                assert(m@ =~= sign_str(mb as int));
            }
            m
        };
        if tenths % 10 == 0 {
            let whole = u64_to_string(((a + 500) / 1000) as u64);
            s.append(whole.as_str());
            s.append(" GB");
        } else {
            let whole = u64_to_string((tenths / 10) as u64);
            let frac = u64_to_string((tenths % 10) as u64);
            s.append(whole.as_str());
            s.append(".");
            s.append(frac.as_str());
            s.append(" GB");
        }
        s
    } else {
        let mut s = i64_to_string(mb as i64);
        s.append(" MB");
        s
    }
}

/// Where the store lives: the configured location, or a `sqlite:` URL for
/// `data/data.db` under the installation root, with the root's leading slash
/// folded into the URL's own.
pub open spec fn resolve_db_url_spec(env_url: Option<String>, root: Seq<char>) -> Seq<char> {
    match env_url {
        Some(u) => u@,
        None => {
            let full = root + "/data/data.db"@;
            let trimmed = if full.len() > 0 && full[0] == '/' {
                full.drop_first()
            } else {
                full
            };
            "sqlite:///"@ + trimmed + "?mode=rwc"@
        },
    }
}

/// The store location to use: a configured URL wins; otherwise the
/// file-backed default under the installation root `root`.
pub fn resolve_db_url(env_url: Option<String>, root: &str) -> (r: String)
    ensures
        r@ == resolve_db_url_spec(env_url, root@),
{
    match env_url {
        Some(u) => u,
        None => {
            let mut full = String::from_str(root);
            full.append("/data/data.db");
            let n = full.as_str().unicode_len();
            let trimmed: String = if n > 0 && full.as_str().get_char(0) == '/' {
                let sub = full.as_str().substring_char(1, n);
                String::from_str(sub)
            } else {
                full
            };
            proof {
                let fullv = root@ + "/data/data.db"@;
                assert(trimmed@ =~= (if fullv.len() > 0 && fullv[0] == '/' {
                    fullv.drop_first()
                } else {
                    fullv
                }));
            }
            let mut out = String::from_str("sqlite:///");
            out.append(trimmed.as_str());
            out.append("?mode=rwc");
            out
        },
    }
}

} // verus!
