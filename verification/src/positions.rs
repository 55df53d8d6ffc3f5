//! The position-list parser: the grammar for range lists such as `1-3,8,15-20`.

use vstd::prelude::*;
use vstd::string::{StrSliceExecFns, StringExecFns};

use crate::errors::ConfigError;

verus! {

/// A half-open interval `[start, end)` of zero-based indices.
///
/// A range is parsed from a 1-based textual item: the single number `N`
/// stands for `[N-1, N)` and the pair `N-M` for `[N-1, M)`.
#[derive(Clone, Copy, Debug, PartialEq, Eq, Structural)]
pub struct Range {
    pub start: usize,
    pub end: usize,
}

impl Range {
    /// A structurally valid range is strictly non-empty.
    pub open spec fn wf(self) -> bool {
        self.start < self.end
    }
}

/// The decimal digits.
pub open spec fn is_digit(c: char) -> bool {
    48 <= c as u32 <= 57
}

/// The numeric value of one decimal digit character.
pub open spec fn digit_val(c: char) -> nat {
    (c as u32 - 48) as nat
}

pub open spec fn all_digits(s: Seq<char>) -> bool {
    forall|i: int| 0 <= i < s.len() ==> is_digit(#[trigger] s[i])
}

/// The numeric value of a digit string, most significant digit first.
pub open spec fn dec_val(s: Seq<char>) -> nat
    decreases s.len(),
{
    if s.len() == 0 {
        0
    } else {
        dec_val(s.drop_last()) * 10 + digit_val(s.last())
    }
}

/// Split `s` at every occurrence of `sep`. The result always holds at least
/// one piece; n separators yield n + 1 pieces, none containing `sep`.
pub open spec fn split_seq(s: Seq<char>, sep: char) -> Seq<Seq<char>>
    decreases s.len(),
{
    if s.len() == 0 {
        seq![Seq::<char>::empty()]
    } else {
        let init = split_seq(s.drop_last(), sep);
        if s.last() == sep {
            init.push(Seq::<char>::empty())
        } else {
            init.update(init.len() - 1, init.last().push(s.last()))
        }
    }
}

/// A numeric component may not begin or end with a sign character.
pub open spec fn num_shape_ok(s: Seq<char>) -> bool {
    s.len() == 0 || {
        &&& s[0] != '+' && s[0] != '-'
        &&& s[s.len() - 1] != '+' && s[s.len() - 1] != '-'
    }
}

/// A numeric component parses as a machine-sized non-negative integer.
pub open spec fn num_parses(s: Seq<char>) -> bool {
    s.len() > 0 && all_digits(s) && dec_val(s) <= usize::MAX
}

/// A numeric component is fully valid: well shaped, parses, and is not zero.
pub open spec fn num_ok(s: Seq<char>) -> bool {
    num_shape_ok(s) && num_parses(s) && dec_val(s) != 0
}

/// `e` is the illegal-value error naming exactly the text `t`.
pub open spec fn is_illegal_value_err(e: ConfigError, t: Seq<char>) -> bool {
    match e {
        ConfigError::IllegalListValue(v) => v@ == t,
        _ => false,
    }
}

/// The error produced for an invalid numeric component: a shape or parse
/// failure names the component, and only then is a zero value reported.
pub open spec fn num_err_matches(s: Seq<char>, e: ConfigError) -> bool {
    if !num_shape_ok(s) || !num_parses(s) {
        is_illegal_value_err(e, s)
    } else {
        e is ZeroValue
    }
}

/// The `-`-separated components of one list item.
pub open spec fn tok_parts(t: Seq<char>) -> Seq<Seq<char>> {
    split_seq(t, '-')
}

/// An item that begins or ends with `-` is rejected outright.
pub open spec fn tok_dash_edge(t: Seq<char>) -> bool {
    t.len() > 0 && (t[0] == '-' || t[t.len() - 1] == '-')
}

/// A fully valid list item: either a single positive number or an
/// ascending pair of positive numbers.
pub open spec fn tok_ok(t: Seq<char>) -> bool {
    &&& !tok_dash_edge(t)
    &&& if tok_parts(t).len() == 1 {
        num_ok(tok_parts(t)[0])
    } else if tok_parts(t).len() == 2 {
        &&& num_ok(tok_parts(t)[0])
        &&& num_ok(tok_parts(t)[1])
        &&& dec_val(tok_parts(t)[0]) < dec_val(tok_parts(t)[1])
    } else {
        false
    }
}

/// The zero-based start of the range denoted by a valid item.
pub open spec fn tok_start(t: Seq<char>) -> int {
    dec_val(tok_parts(t)[0]) - 1
}

/// The zero-based (exclusive) end of the range denoted by a valid item.
pub open spec fn tok_end(t: Seq<char>) -> int {
    if tok_parts(t).len() == 1 {
        dec_val(tok_parts(t)[0]) as int
    } else {
        dec_val(tok_parts(t)[1]) as int
    }
}

/// `e` is the inverted-range error carrying the bounds `(a, b)`.
pub open spec fn is_inverted_err(e: ConfigError, a: nat, b: nat) -> bool {
    match e {
        ConfigError::InvertedRange(x, y) => x as nat == a && y as nat == b,
        _ => false,
    }
}

/// The error produced for an invalid item, following the precedence of the
/// checks: dash at an edge, then each numeric component left to right, then
/// the bound ordering, and any other shape is an illegal value.
pub open spec fn tok_err_matches(t: Seq<char>, e: ConfigError) -> bool {
    if tok_dash_edge(t) {
        is_illegal_value_err(e, t)
    } else if tok_parts(t).len() == 1 {
        num_err_matches(tok_parts(t)[0], e)
    } else if tok_parts(t).len() == 2 {
        if !num_ok(tok_parts(t)[0]) {
            num_err_matches(tok_parts(t)[0], e)
        } else if !num_ok(tok_parts(t)[1]) {
            num_err_matches(tok_parts(t)[1], e)
        } else {
            is_inverted_err(e, dec_val(tok_parts(t)[0]), dec_val(tok_parts(t)[1]))
        }
    } else {
        is_illegal_value_err(e, t)
    }
}

/// The comma-separated items of a range list.
pub open spec fn list_items(s: Seq<char>) -> Seq<Seq<char>> {
    split_seq(s, ',')
}

/// A list may not be empty nor begin or end with a comma.
pub open spec fn list_shape_ok(s: Seq<char>) -> bool {
    s.len() > 0 && s[0] != ',' && s[s.len() - 1] != ','
}

/// A fully valid range list: well shaped, with every item valid.
pub open spec fn list_ok(s: Seq<char>) -> bool {
    list_shape_ok(s) && forall|i: int|
        0 <= i < list_items(s).len() ==> tok_ok(#[trigger] list_items(s)[i])
}

/// The parsed ranges match the list text item for item, in the user's order.
pub open spec fn positions_match(s: Seq<char>, v: Seq<Range>) -> bool {
    &&& v.len() == list_items(s).len()
    &&& forall|i: int|
        0 <= i < v.len() ==> {
            &&& (#[trigger] v[i]).start as int == tok_start(list_items(s)[i])
            &&& v[i].end as int == tok_end(list_items(s)[i])
        }
}

/// The error produced for an invalid list: a shape failure names the whole
/// list text, and otherwise the first invalid item decides.
pub open spec fn list_err_matches(s: Seq<char>, e: ConfigError) -> bool {
    if !list_shape_ok(s) {
        is_illegal_value_err(e, s)
    } else {
        exists|i: int|
            {
                &&& 0 <= i < list_items(s).len()
                &&& forall|j: int| 0 <= j < i ==> tok_ok(#[trigger] list_items(s)[j])
                &&& !tok_ok(#[trigger] list_items(s)[i])
                &&& tok_err_matches(list_items(s)[i], e)
            }
    }
}

/// Law: a valid item with a single numeric component denotes a width-one
/// range, `N` standing for `[N-1, N)`.
pub proof fn lemma_single_number_range(t: Seq<char>)
    requires
        tok_ok(t),
        tok_parts(t).len() == 1,
    ensures
        tok_end(t) == tok_start(t) + 1,
{
}

/// Law: parsing preserves the user's item order; the i-th parsed range is
/// exactly the range denoted by the i-th item of the list.
pub proof fn lemma_positions_order(s: Seq<char>, v: Seq<Range>, i: int)
    requires
        positions_match(s, v),
        0 <= i < v.len(),
    ensures
        v[i].start as int == tok_start(list_items(s)[i]),
        v[i].end as int == tok_end(list_items(s)[i]),
{
}

/// Any prefix of a digit string denotes no more than the whole string.
proof fn lemma_dec_val_prefix_mono(s: Seq<char>, i: int, j: int)
    requires
        0 <= i <= j <= s.len(),
    ensures
        dec_val(s.take(i)) <= dec_val(s.take(j)),
    decreases j - i,
{
    if i < j {
        lemma_dec_val_prefix_mono(s, i, j - 1);
        assert(s.take(j).drop_last() =~= s.take(j - 1));
        assert(dec_val(s.take(j)) == dec_val(s.take(j - 1)) * 10 + digit_val(s.take(j).last()));
        assert(dec_val(s.take(j - 1)) * 10 >= dec_val(s.take(j - 1))) by (nonlinear_arith);
    }
}

/// Split a string at every occurrence of `sep`.
fn split_str(s: &str, sep: char) -> (r: Vec<String>)
    ensures
        r.deep_view() == split_seq(s@, sep),
        r@.len() >= 1,
{
    let n = s.unicode_len();
    let mut out: Vec<String> = Vec::new();
    let mut cur = String::new();
    let mut i: usize = 0;
    proof {
        assert(s@.take(0int) =~= Seq::<char>::empty());
        assert(out.deep_view().push(cur@) =~~= split_seq(s@.take(0int), sep));
    }
    while i < n
        invariant
            i <= n,
            n == s@.len(),
            out.deep_view().push(cur@) =~~= split_seq(s@.take(i as int), sep),
        decreases n - i,
    {
        let ghost prev = out.deep_view().push(cur@);
        let c = s.get_char(i);
        let piece = s.substring_char(i, i + 1);
        proof {
            assert(s@.take(i + 1).drop_last() =~= s@.take(i as int));
            assert(s@.take(i + 1).last() == s@[i as int]);
            assert(piece@ =~= seq![s@[i as int]]);
        }
        if c == sep {
            out.push(cur);
            cur = String::new();
            proof {
                assert(out.deep_view().push(cur@) =~~= prev.push(Seq::<char>::empty()));
                assert(out.deep_view().push(cur@) =~~= split_seq(s@.take(i + 1), sep));
            }
        } else {
            cur.append(piece);
            proof {
                assert(prev.len() >= 1);
                assert(out.deep_view().push(cur@) =~~= prev.update(
                    prev.len() - 1,
                    prev.last().push(s@[i as int]),
                ));
                assert(out.deep_view().push(cur@) =~~= split_seq(s@.take(i + 1), sep));
            }
        }
        i += 1;
    }
    proof {
        assert(s@.take(n as int) =~= s@);
    }
    let ghost pre_push = out.deep_view();
    out.push(cur);
    proof {
        assert(out.deep_view() =~~= pre_push.push(cur@));
    }
    out
}

/// Parse one numeric component as a positive machine-sized integer.
fn parse_num(s: &str) -> (r: Result<usize, ConfigError>)
    ensures
        r is Ok <==> num_ok(s@),
        r matches Ok(n) ==> n as nat == dec_val(s@),
        r matches Err(e) ==> num_err_matches(s@, e),
{
    let n = s.unicode_len();
    if n > 0 {
        let first = s.get_char(0);
        let last = s.get_char(n - 1);
        if first == '+' || first == '-' || last == '+' || last == '-' {
            return Err(ConfigError::IllegalListValue(s.to_owned()));
        }
    }
    if n == 0 {
        return Err(ConfigError::IllegalListValue(s.to_owned()));
    }
    let mut val: usize = 0;
    let mut i: usize = 0;
    proof {
        assert(s@.take(0int) =~= Seq::<char>::empty());
    }
    while i < n
        invariant
            0 < n == s@.len(),
            i <= n,
            num_shape_ok(s@),
            all_digits(s@.take(i as int)),
            val as nat == dec_val(s@.take(i as int)),
        decreases n - i,
    {
        let c = s.get_char(i);
        let cu = c as u32;
        if cu < 48 || cu > 57 {
            proof {
                assert(!is_digit(s@[i as int]));
                assert(!all_digits(s@));
            }
            return Err(ConfigError::IllegalListValue(s.to_owned()));
        }
        let d = (cu - 48) as usize;
        proof {
            assert(s@.take(i + 1).drop_last() =~= s@.take(i as int));
            assert(s@.take(i + 1).last() == s@[i as int]);
            assert(digit_val(s@[i as int]) == d as nat);
        }
        if val > (usize::MAX - d) / 10 {
            proof {
                assert(val * 10 + d > usize::MAX) by (nonlinear_arith)
                    requires
                        val > (usize::MAX - d) / 10,
                        d <= 9,
                ;
                assert(dec_val(s@.take(i + 1)) > usize::MAX);
                lemma_dec_val_prefix_mono(s@, i + 1, s@.len() as int);
                assert(s@.take(s@.len() as int) =~= s@);
                assert(dec_val(s@) > usize::MAX);
                assert(!num_parses(s@));
            }
            return Err(ConfigError::IllegalListValue(s.to_owned()));
        }
        proof {
            assert(val * 10 + d <= usize::MAX) by (nonlinear_arith)
                requires
                    val <= (usize::MAX - d) / 10,
                    d <= 9,
            ;
        }
        val = val * 10 + d;
        proof {
            assert(all_digits(s@.take(i + 1)));
        }
        i += 1;
    }
    proof {
        assert(s@.take(n as int) =~= s@);
    }
    if val == 0 {
        Err(ConfigError::ZeroValue)
    } else {
        Ok(val)
    }
}

/// Parse one comma-separated list item into its range.
fn parse_token(tok: &str) -> (r: Result<Range, ConfigError>)
    ensures
        r is Ok <==> tok_ok(tok@),
        r matches Ok(rg) ==> rg.start as int == tok_start(tok@) && rg.end as int == tok_end(tok@),
        r matches Err(e) ==> tok_err_matches(tok@, e),
{
    let n = tok.unicode_len();
    if n > 0 {
        let first = tok.get_char(0);
        let last = tok.get_char(n - 1);
        if first == '-' || last == '-' {
            return Err(ConfigError::IllegalListValue(tok.to_owned()));
        }
    }
    let parts = split_str(tok, '-');
    proof {
        assert(parts.deep_view()[0] == parts@[0].deep_view());
    }
    if parts.len() == 1 {
        match parse_num(parts[0].as_str()) {
            Ok(v) => Ok(Range { start: v - 1, end: v }),
            Err(e) => Err(e),
        }
    } else if parts.len() == 2 {
        proof {
            assert(parts.deep_view()[1] == parts@[1].deep_view());
        }
        let a = match parse_num(parts[0].as_str()) {
            Ok(v) => v,
            Err(e) => {
                return Err(e);
            },
        };
        let b = match parse_num(parts[1].as_str()) {
            Ok(v) => v,
            Err(e) => {
                return Err(e);
            },
        };
        if b <= a {
            Err(ConfigError::InvertedRange(a, b))
        } else {
            Ok(Range { start: a - 1, end: b })
        }
    } else {
        Err(ConfigError::IllegalListValue(tok.to_owned()))
    }
}

/// Parse a range-list string such as `1-3,8,15-20`.
///
/// Each single number `N` yields the range `[N-1, N)` and each pair `N-M`
/// the range `[N-1, M)`, in the user's order, neither merged nor sorted.
pub fn parse_positions(arg: &str) -> (r: Result<Vec<Range>, ConfigError>)
    ensures
        r is Ok <==> list_ok(arg@),
        r matches Ok(v) ==> positions_match(arg@, v@) && forall|i: int|
            0 <= i < v@.len() ==> (#[trigger] v@[i]).wf(),
        r matches Err(e) ==> list_err_matches(arg@, e),
{
    let n = arg.unicode_len();
    if n == 0 {
        return Err(ConfigError::IllegalListValue(arg.to_owned()));
    }
    let first = arg.get_char(0);
    let last = arg.get_char(n - 1);
    if first == ',' || last == ',' {
        return Err(ConfigError::IllegalListValue(arg.to_owned()));
    }
    let items = split_str(arg, ',');
    let mut out: Vec<Range> = Vec::new();
    let mut k: usize = 0;
    while k < items.len()
        invariant
            list_shape_ok(arg@),
            items.deep_view() == list_items(arg@),
            k <= items@.len(),
            out@.len() == k,
            forall|j: int| 0 <= j < k ==> tok_ok(#[trigger] list_items(arg@)[j]),
            forall|j: int|
                0 <= j < k ==> {
                    &&& (#[trigger] out@[j]).start as int == tok_start(list_items(arg@)[j])
                    &&& out@[j].end as int == tok_end(list_items(arg@)[j])
                    &&& out@[j].wf()
                },
        decreases items@.len() - k,
    {
        proof {
            assert(items.deep_view()[k as int] == items@[k as int].deep_view());
        }
        match parse_token(items[k].as_str()) {
            Ok(rg) => {
                proof {
                    assert(tok_ok(list_items(arg@)[k as int]));
                }
                out.push(rg);
            },
            Err(e) => {
                proof {
                    let i = k as int;
                    assert(!tok_ok(list_items(arg@)[i]));
                    assert(list_err_matches(arg@, e));
                }
                return Err(e);
            },
        }
        k += 1;
    }
    Ok(out)
}

} // verus!
