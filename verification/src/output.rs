//! Output formatting helpers.
//!
//! Latencies are carried as whole microseconds; for output they are rendered
//! as decimal seconds with the trailing zeros of the fraction removed, so the
//! rendering is exact for every value.

use vstd::prelude::*;

verus! {

/// Character of one decimal digit.
pub open spec fn digit_char(d: int) -> char {
    if d == 0 {
        '0'
    } else if d == 1 {
        '1'
    } else if d == 2 {
        '2'
    } else if d == 3 {
        '3'
    } else if d == 4 {
        '4'
    } else if d == 5 {
        '5'
    } else if d == 6 {
        '6'
    } else if d == 7 {
        '7'
    } else if d == 8 {
        '8'
    } else {
        '9'
    }
}

/// Decimal digits of `n`, most significant first.
pub open spec fn dec_str(n: nat) -> Seq<char>
    decreases n,
{
    if n < 10 {
        seq![digit_char(n as int)]
    } else {
        dec_str(n / 10).push(digit_char((n % 10) as int))
    }
}

/// The lowest `width` decimal digits of `n`, zero-padded at the front.
pub open spec fn dec_pad(n: nat, width: nat) -> Seq<char>
    decreases width,
{
    if width == 0 {
        Seq::empty()
    } else {
        dec_pad(n / 10, (width - 1) as nat).push(digit_char((n % 10) as int))
    }
}

/// Fraction digits: the `width`-digit rendering of `n` with its trailing
/// zeros removed; empty when `n` is zero.
pub open spec fn frac_str(n: nat, width: nat) -> Seq<char>
    decreases width,
{
    if width == 0 {
        Seq::empty()
    } else if n % 10 == 0 {
        frac_str(n / 10, (width - 1) as nat)
    } else {
        dec_pad(n, width)
    }
}

/// Powers of ten.
pub open spec fn pow10(k: nat) -> nat
    decreases k,
{
    if k == 0 {
        1
    } else {
        10 * pow10((k - 1) as nat)
    }
}

/// Rendering of a microsecond count as decimal seconds: the whole seconds,
/// then a dot and the fraction digits when the fraction is not zero.
pub open spec fn secs_str(us: nat) -> Seq<char> {
    if us % 1000000 == 0 {
        dec_str(us / 1000000)
    } else {
        dec_str(us / 1000000) + seq!['.'] + frac_str(us % 1000000, 6)
    }
}

/// Rendering of an optional latency: absent values show as the letter `U`,
/// as monitoring plugins require.
pub open spec fn u_spec(v: Option<u64>) -> Seq<char> {
    match v {
        None => seq!['U'],
        Some(us) => secs_str(us as nat),
    }
}

/// Appends one decimal digit.
fn push_digit(s: &mut String, d: u64)
    requires
        d < 10,
    ensures
        final(s)@ == old(s)@ + seq![digit_char(d as int)],
{
    if d == 0 {
        s.append("0");
        proof {
            reveal_strlit("0");
            assert("0"@ =~= seq![digit_char(d as int)]);
        }
    } else if d == 1 {
        s.append("1");
        proof {
            reveal_strlit("1");
            assert("1"@ =~= seq![digit_char(d as int)]);
        }
    } else if d == 2 {
        s.append("2");
        proof {
            reveal_strlit("2");
            assert("2"@ =~= seq![digit_char(d as int)]);
        }
    } else if d == 3 {
        s.append("3");
        proof {
            reveal_strlit("3");
            assert("3"@ =~= seq![digit_char(d as int)]);
        }
    } else if d == 4 {
        s.append("4");
        proof {
            reveal_strlit("4");
            assert("4"@ =~= seq![digit_char(d as int)]);
        }
    } else if d == 5 {
        s.append("5");
        proof {
            reveal_strlit("5");
            assert("5"@ =~= seq![digit_char(d as int)]);
        }
    } else if d == 6 {
        s.append("6");
        proof {
            reveal_strlit("6");
            assert("6"@ =~= seq![digit_char(d as int)]);
        }
    } else if d == 7 {
        s.append("7");
        proof {
            reveal_strlit("7");
            assert("7"@ =~= seq![digit_char(d as int)]);
        }
    } else if d == 8 {
        s.append("8");
        proof {
            reveal_strlit("8");
            assert("8"@ =~= seq![digit_char(d as int)]);
        }
    } else {
        s.append("9");
        proof {
            reveal_strlit("9");
            assert("9"@ =~= seq![digit_char(d as int)]);
        }
    }
}

/// Appends the decimal digits of `n`.
pub(crate) fn push_dec(s: &mut String, n: u64)
    ensures
        final(s)@ == old(s)@ + dec_str(n as nat),
    decreases n,
{
    if n < 10 {
        push_digit(s, n);
    } else {
        push_dec(s, n / 10);
        push_digit(s, n % 10);
        proof {
            assert(dec_str(n as nat) =~= dec_str((n / 10) as nat) + seq![
                digit_char((n % 10) as int),
            ]);
            assert(old(s)@ + dec_str((n / 10) as nat) + seq![digit_char((n % 10) as int)] =~= old(
                s,
            )@ + dec_str(n as nat));
        }
    }
}

/// Appends the lowest `width` decimal digits of `n`, zero-padded.
fn push_dec_pad(s: &mut String, n: u64, width: u64)
    ensures
        final(s)@ == old(s)@ + dec_pad(n as nat, width as nat),
    decreases width,
{
    if width > 0 {
        push_dec_pad(s, n / 10, width - 1);
        push_digit(s, n % 10);
        proof {
            assert(dec_pad(n as nat, width as nat) =~= dec_pad(
                (n / 10) as nat,
                (width - 1) as nat,
            ) + seq![digit_char((n % 10) as int)]);
            assert(old(s)@ + dec_pad((n / 10) as nat, (width - 1) as nat) + seq![
                digit_char((n % 10) as int),
            ] =~= old(s)@ + dec_pad(n as nat, width as nat));
        }
    } else {
        proof {
            assert(old(s)@ + dec_pad(n as nat, 0) =~= old(s)@);
        }
    }
}

/// Appends the decimal-seconds rendering of a microsecond count.
pub(crate) fn push_secs(s: &mut String, us: u64)
    ensures
        final(s)@ == old(s)@ + secs_str(us as nat),
{
    let whole = us / 1000000;
    let frac = us % 1000000;
    push_dec(s, whole);
    if frac != 0 {
        s.append(".");
        proof {
            reveal_strlit(".");
            assert("."@ =~= seq!['.']);
        }
        let mut f = frac;
        let mut w: u64 = 6;
        proof {
            assert(pow10(0) == 1);
            assert(pow10(1) == 10);
            assert(pow10(2) == 100);
            assert(pow10(3) == 1000);
            assert(pow10(4) == 10000);
            assert(pow10(5) == 100000);
            assert(pow10(6) == 1000000);
        }
        while f % 10 == 0
            invariant
                0 < f,
                (f as nat) < pow10(w as nat),
                frac_str(f as nat, w as nat) == frac_str(frac as nat, 6),
            decreases w,
        {
            proof {
                assert(w >= 1);
                assert(((f / 10) as nat) < pow10((w - 1) as nat)) by {
                    assert(pow10(w as nat) == 10 * pow10((w - 1) as nat));
                };
            }
            f = f / 10;
            w = w - 1;
        }
        proof {
            assert(w >= 1);
            assert(frac_str(f as nat, w as nat) == dec_pad(f as nat, w as nat));
        }
        push_dec_pad(s, f, w);
        proof {
            assert(old(s)@ + dec_str((us / 1000000) as nat) + seq!['.'] + dec_pad(
                f as nat,
                w as nat,
            ) =~= old(s)@ + secs_str(us as nat));
        }
    }
}

/// Appends the rendering of an optional latency.
pub(crate) fn push_u(s: &mut String, val: &Option<u64>)
    ensures
        final(s)@ == old(s)@ + u_spec(*val),
{
    match val {
        None => {
            s.append("U");
            proof {
                reveal_strlit("U");
                assert("U"@ =~= seq!['U']);
            }
        },
        Some(us) => {
            push_secs(s, *us);
        },
    }
}

/// Formats an optional latency value: the decimal seconds, or the letter `U`
/// where no value exists.
pub fn u(val: &Option<u64>) -> (r: String)
    ensures
        r@ == u_spec(*val),
{
    let mut s = String::new();
    push_u(&mut s, val);
    proof {
        assert(Seq::<char>::empty() + u_spec(*val) =~= u_spec(*val));
    }
    s
}

/// Formats a ping target: the address alone where it equals the host
/// string, `host/address` otherwise.
pub fn best(host: &str, addr: String) -> (r: String)
    ensures
        host@ == addr@ ==> r@ == addr@,
        host@ != addr@ ==> r@ == host@ + "/"@ + addr@,
{
    let h = host.to_owned();
    if h == addr {
        addr
    } else {
        let mut r = h;
        r.append("/");
        r.append(addr.as_str());
        r
    }
}

} // verus!
