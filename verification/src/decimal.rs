//! An exact decimal quantity: an unsigned integer mantissa together with a
//! scale (the number of fractional digits). Prices, areas and room counts
//! are held in this form so that locale-formatted figures round-trip without
//! representation drift; no floating point is involved anywhere.

use vstd::prelude::*;
use crate::text::{
    all_digits, is_digit, parse_u64, seq_to_nat, spec_commas_to_dots, spec_digits,
    spec_strip_dots, spec_token, spec_trim, commas_to_dots, strip_dots, token, trim,
    u64_to_string,
};

verus! {

/// An exact non-negative decimal: the denoted value is
/// `mantissa / 10^scale`.
#[derive(PartialEq, Eq, Structural, Clone, Copy, Debug)]
pub struct Dec {
    pub mantissa: u64,
    pub scale: u32,
}

/// Position of the first `.` in `s` (the length of `s` if none).
pub open spec fn first_dot(s: Seq<char>) -> int
    decreases s.len(),
{
    if s.len() == 0 {
        0
    } else if s[0] == '.' {
        0
    } else {
        1 + first_dot(s.drop_first())
    }
}

proof fn lemma_first_dot_bound(s: Seq<char>)
    ensures
        0 <= first_dot(s) <= s.len(),
    decreases s.len(),
{
    if s.len() > 0 && s[0] != '.' {
        lemma_first_dot_bound(s.drop_first());
    }
}

fn find_dot(s: &str) -> (r: usize)
    ensures
        r == first_dot(s@),
    decreases s@.len(),
{
    proof {
        lemma_first_dot_bound(s@);
    }
    let n = s.unicode_len();
    if n == 0 {
        0
    } else if s.get_char(0) == '.' {
        0
    } else {
        let rest = s.substring_char(1, n);
        proof {
            assert(rest@ =~= s@.drop_first());
            lemma_first_dot_bound(rest@);
        }
        1 + find_dot(rest)
    }
}

/// Whether `s` is a well-formed canonical decimal: a non-empty digit string,
/// optionally followed by `.` and one more non-empty digit string, whose
/// mantissa fits in `u64`.
pub open spec fn dec_grammar_ok(s: Seq<char>) -> bool {
    let k = first_dot(s);
    if k == s.len() {
        s.len() > 0 && all_digits(s) && seq_to_nat(s) <= u64::MAX
    } else {
        let ip = s.take(k);
        let fp = s.skip(k + 1);
        ip.len() > 0 && fp.len() > 0 && all_digits(ip) && all_digits(fp) && first_dot(fp)
            == fp.len() && seq_to_nat(ip + fp) <= u64::MAX && fp.len() <= u32::MAX
    }
}

/// The decimal denoted by a well-formed canonical decimal string: the
/// mantissa is the value of all digits run together, the scale is the
/// number of digits after the `.`.
pub open spec fn spec_parse_dec(s: Seq<char>) -> Dec {
    let k = first_dot(s);
    if k == s.len() {
        Dec { mantissa: seq_to_nat(s) as u64, scale: 0 }
    } else {
        Dec {
            mantissa: seq_to_nat(s.take(k) + s.skip(k + 1)) as u64,
            scale: s.skip(k + 1).len() as u32,
        }
    }
}

/// Parses a canonical decimal string (digits, optionally `.` and more
/// digits). Returns `Some` exactly when [`dec_grammar_ok`] holds of `s`.
pub fn parse_dec(s: &str) -> (r: Option<Dec>)
    ensures
        match r {
            Some(d) => dec_grammar_ok(s@) && d == spec_parse_dec(s@),
            None => !dec_grammar_ok(s@),
        },
{
    let n = s.unicode_len();
    let k = find_dot(s);
    proof {
        lemma_first_dot_bound(s@);
    }
    if k == n {
        match parse_u64(s) {
            Some(v) => Some(Dec { mantissa: v, scale: 0 }),
            None => None,
        }
    } else {
        let ip = s.substring_char(0, k);
        let fp = s.substring_char(k + 1, n);
        proof {
            assert(ip@ =~= s@.take(k as int));
            assert(fp@ =~= s@.skip(k as int + 1));
        }
        if ip.unicode_len() == 0 || fp.unicode_len() == 0 {
            return None;
        }
        let fk = find_dot(fp);
        if fk != fp.unicode_len() {
            return None;
        }
        let joined = String::from_str(ip).concat(fp);
        match parse_u64(joined.as_str()) {
            Some(v) => {
                let scale_us = fp.unicode_len();
                if scale_us > u32::MAX as usize {
                    proof {
                        assert(!dec_grammar_ok(s@));
                    }
                    return None;
                }
                proof {
                    assert(all_digits(ip@)) by {
                        assert(forall|i: int| 0 <= i < ip@.len() ==> is_digit(
                            #[trigger] joined@[i],
                        ));
                        assert(forall|i: int| 0 <= i < ip@.len() ==> ip@[i] == joined@[i]);
                    }
                    assert(all_digits(fp@)) by {
                        assert(forall|i: int|
                            0 <= i < fp@.len() ==> is_digit(#[trigger] joined@[ip@.len() + i]));
                        assert(forall|i: int|
                            0 <= i < fp@.len() ==> fp@[i] == joined@[ip@.len() + i]);
                    }
                }
                Some(Dec { mantissa: v, scale: scale_us as u32 })
            },
            None => {
                proof {
                    if all_digits(ip@) && all_digits(fp@) {
                        assert(all_digits(joined@)) by {
                            assert(forall|i: int|
                                0 <= i < joined@.len() ==> is_digit(#[trigger] joined@[i]) == (
                                if i < ip@.len() {
                                    is_digit(ip@[i])
                                } else {
                                    is_digit(fp@[i - ip@.len()])
                                }));
                        }
                    }
                }
                None
            },
        }
    }
}

/// `count` copies of `'0'`.
pub open spec fn zeros(count: int) -> Seq<char>
    decreases count,
{
    if count <= 0 {
        Seq::empty()
    } else {
        seq!['0'] + zeros(count - 1)
    }
}

fn zeros_string(count: u32) -> (r: String)
    ensures
        r@ == zeros(count as int),
    decreases count,
{
    if count == 0 {
        String::new()
    } else {
        proof {
            reveal_strlit("0");
            assert("0"@ =~= seq!['0']);
        }
        String::from_str("0").concat(zeros_string(count - 1).as_str())
    }
}

/// The canonical rendering of `d`: the mantissa's digits with a `.` placed
/// `scale` digits from the right, zero-padded when the mantissa has no more
/// than `scale` digits.
pub open spec fn spec_dec_text(d: Dec) -> Seq<char> {
    let ds = spec_digits(d.mantissa as int);
    if d.scale == 0 {
        ds
    } else if ds.len() > d.scale {
        ds.take(ds.len() - d.scale) + seq!['.'] + ds.skip(ds.len() - d.scale)
    } else {
        seq!['0', '.'] + zeros(d.scale - ds.len()) + ds
    }
}

impl Dec {
    /// Renders the quantity as text, e.g. mantissa 123450 at scale 2 as
    /// `1234.50`.
    pub fn to_text(&self) -> (r: String)
        ensures
            r@ == spec_dec_text(*self),
    {
        let ds = u64_to_string(self.mantissa);
        let n = ds.as_str().unicode_len();
        if self.scale == 0 {
            ds
        } else if n > self.scale as usize {
            let cut = n - self.scale as usize;
            let ip = ds.as_str().substring_char(0, cut);
            let fp = ds.as_str().substring_char(cut, n);
            proof {
                reveal_strlit(".");
                assert(ip@ =~= ds@.take(cut as int));
                assert(fp@ =~= ds@.skip(cut as int));
                assert("."@ =~= seq!['.']);
            }
            let r = String::from_str(ip).concat(".").concat(fp);
            proof {
                assert(r@ =~= spec_dec_text(*self));
            }
            r
        } else {
            proof {
                reveal_strlit("0.");
                assert("0."@ =~= seq!['0', '.']);
            }
            let pad = zeros_string(self.scale - n as u32);
            let r = String::from_str("0.").concat(pad.as_str()).concat(ds.as_str());
            proof {
                assert(r@ =~= spec_dec_text(*self));
            }
            r
        }
    }
}

/// The full numeric-field cleaning rule: trim, take the token before the
/// first space, strip thousands separators (`.`), then turn the decimal
/// separator (`,`) into `.`.
pub open spec fn spec_clean_quantity(s: Seq<char>) -> Seq<char> {
    spec_commas_to_dots(spec_strip_dots(spec_token(spec_trim(s))))
}

/// The decimal denoted by a locale-formatted quantity text, if it is
/// well-formed after cleaning.
pub open spec fn quantity_ok(s: Seq<char>) -> bool {
    dec_grammar_ok(spec_clean_quantity(s))
}

/// The parsed value of a well-formed quantity text.
pub open spec fn spec_parse_quantity(s: Seq<char>) -> Dec {
    spec_parse_dec(spec_clean_quantity(s))
}

/// Parses one locale-formatted quantity text (e.g. `"1.234,50 €"`) into an
/// exact decimal. Returns `Some` exactly when the cleaned token is a
/// well-formed decimal.
pub fn parse_quantity(s: &str) -> (r: Option<Dec>)
    ensures
        match r {
            Some(d) => quantity_ok(s@) && d == spec_parse_quantity(s@),
            None => !quantity_ok(s@),
        },
{
    let t = token(trim(s));
    let cleaned = commas_to_dots(strip_dots(t).as_str());
    parse_dec(cleaned.as_str())
}

} // verus!
