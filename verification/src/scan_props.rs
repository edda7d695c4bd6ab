//! Properties of the scanner, proved of its model and thereby, through the
//! contracts in [`crate::scanner`], of every scan.

use vstd::prelude::*;

use crate::token::{LexError, TokenV};
use crate::scanner::{
    is_ws, is_symbol, is_digit_char, symbol_tokv, digit_run, number_end, scan_from, scan_model,
    lemma_digit_run_is, lemma_digit_run_bound, lemma_digit_run_digits,
};

verus! {

/// Filtering a one-character sequence keeps or drops that character.
proof fn lemma_filter_singleton(c: char, pred: spec_fn(char) -> bool)
    ensures
        seq![c].filter(pred) == if pred(c) {
            seq![c]
        } else {
            Seq::<char>::empty()
        },
{
    reveal(Seq::filter);
    let s = seq![c];
    assert(s.drop_last() =~= Seq::<char>::empty());
    assert(Seq::<char>::empty().filter(pred) =~= Seq::<char>::empty());
    assert(s.filter(pred) == if pred(c) {
        Seq::<char>::empty().push(c)
    } else {
        Seq::<char>::empty().filter(pred)
    });
    assert(Seq::<char>::empty().push(c) =~= seq![c]);
}

/// Mapping values distributes over concatenation.
proof fn lemma_map_values_add(a: Seq<char>, b: Seq<char>, f: spec_fn(char) -> TokenV)
    ensures
        (a + b).map_values(f) == a.map_values(f) + b.map_values(f),
{
    assert((a + b).map_values(f) =~= a.map_values(f) + b.map_values(f));
}

/// From position `i` on, an input of symbols and whitespace scans to one
/// token per non-whitespace character.
proof fn lemma_scan_symbols_from(s: Seq<char>, i: int)
    requires
        0 <= i <= s.len(),
        forall|j: int| i <= j < s.len() ==> is_ws(#[trigger] s[j]) || is_symbol(s[j]),
    ensures
        scan_from(s, i) == Ok::<Seq<TokenV>, LexError>(
            s.skip(i).filter(|c: char| !is_ws(c)).map_values(|c: char| symbol_tokv(c)),
        ),
    decreases s.len() - i,
{
    let pred = |c: char| !is_ws(c);
    let f = |c: char| symbol_tokv(c);
    if i == s.len() {
        assert(s.skip(i) =~= Seq::<char>::empty());
        assert(Seq::<char>::empty().filter(pred) =~= Seq::<char>::empty());
        assert(Seq::<char>::empty().map_values(f) =~= Seq::<TokenV>::empty());
    } else {
        let c = s[i];
        lemma_scan_symbols_from(s, i + 1);
        assert(s.skip(i) =~= seq![c] + s.skip(i + 1));
        Seq::filter_distributes_over_add(seq![c], s.skip(i + 1), pred);
        lemma_filter_singleton(c, pred);
        if is_ws(c) {
            assert(Seq::<char>::empty() + s.skip(i + 1).filter(pred) =~= s.skip(i + 1).filter(
                pred,
            ));
        } else {
            lemma_map_values_add(seq![c], s.skip(i + 1).filter(pred), f);
            assert(seq![c].map_values(f) =~= seq![symbol_tokv(c)]);
        }
    }
}

/// An input of operator and parenthesis characters and whitespace scans to
/// exactly one token per non-whitespace character, in order, each the token
/// of its symbol.
pub proof fn lemma_scan_symbols_only(s: Seq<char>)
    requires
        forall|j: int| 0 <= j < s.len() ==> is_ws(#[trigger] s[j]) || is_symbol(s[j]),
    ensures
        scan_model(s) == Ok::<Seq<TokenV>, LexError>(
            s.filter(|c: char| !is_ws(c)).map_values(|c: char| symbol_tokv(c)),
        ),
{
    lemma_scan_symbols_from(s, 0);
    assert(s.skip(0) =~= s);
}

/// All of `s[a..b]` are ASCII digits.
pub open spec fn all_digits(s: Seq<char>, a: int, b: int) -> bool {
    forall|j: int| a <= j < b ==> is_digit_char(#[trigger] s[j])
}

/// `s` is one whole numeric span: a digit run, or a digit run, a `.` and a
/// further digit run.
pub open spec fn is_number_span(s: Seq<char>) -> bool {
    s.len() > 0 && (all_digits(s, 0, s.len() as int) || (exists|k: int|
        1 <= k < s.len() - 1 && #[trigger] s[k] == '.' && all_digits(s, 0, k) && all_digits(
            s,
            k + 1,
            s.len() as int,
        )))
}

/// An input that is one whole numeric span scans to exactly one number
/// token carrying that whole span.
pub proof fn lemma_scan_number_span(s: Seq<char>)
    requires
        is_number_span(s),
    ensures
        scan_model(s) == Ok::<Seq<TokenV>, LexError>(seq![TokenV::Number(s)]),
{
    let n = s.len() as int;
    if all_digits(s, 0, n) {
        lemma_digit_run_is(s, 0, n);
        assert(number_end(s, 0) == n);
    } else {
        let k = choose|k: int|
            1 <= k < s.len() - 1 && #[trigger] s[k] == '.' && all_digits(s, 0, k) && all_digits(
                s,
                k + 1,
                n,
            );
        assert(!is_digit_char('.'));
        lemma_digit_run_is(s, 0, k);
        lemma_digit_run_is(s, k + 1, n);
        assert(number_end(s, 0) == n);
    }
    assert(!is_ws(s[0]) && !is_symbol(s[0])) by {
        assert(is_digit_char(s[0]));
    }
    assert(s.subrange(0, n) =~= s);
    assert(scan_from(s, n) == Ok::<Seq<TokenV>, LexError>(Seq::empty()));
    assert(seq![TokenV::Number(s)] + Seq::<TokenV>::empty() =~= seq![TokenV::Number(s)]);
}

/// A character the scanner can consume: whitespace, a symbol, a digit, or a
/// `.` (which is only ever consumed inside a number).
pub open spec fn is_scannable(c: char) -> bool {
    is_ws(c) || is_symbol(c) || is_digit_char(c) || c == '.'
}

/// A successful scan consumes only scannable characters.
proof fn lemma_scan_ok_chars(s: Seq<char>, i: int)
    requires
        0 <= i <= s.len(),
        scan_from(s, i) is Ok,
    ensures
        forall|j: int| i <= j < s.len() ==> is_scannable(#[trigger] s[j]),
    decreases s.len() - i,
{
    if i < s.len() {
        let c = s[i];
        if is_ws(c) || is_symbol(c) {
            lemma_scan_ok_chars(s, i + 1);
        } else if is_digit_char(c) {
            let e = number_end(s, i);
            lemma_digit_run_bound(s, i);
            lemma_digit_run_digits(s, i);
            let k = i + digit_run(s, i);
            if k < s.len() && s[k] == '.' && k + 1 < s.len() && is_digit_char(s[k + 1]) {
                lemma_digit_run_bound(s, k + 1);
                lemma_digit_run_digits(s, k + 1);
                assert(digit_run(s, i) >= 1);
                lemma_scan_ok_chars(s, e);
                assert(forall|j: int| i <= j < k ==> is_digit_char(#[trigger] s[j]));
                assert(forall|j: int| k + 1 <= j < e ==> is_digit_char(#[trigger] s[j]));
            } else {
                assert(digit_run(s, i) >= 1);
                lemma_scan_ok_chars(s, e);
            }
        }
    }
}

/// A failed scan fails on a character of the input that is no whitespace,
/// no symbol and no digit, and reports exactly that character.
proof fn lemma_scan_err_shape(s: Seq<char>, i: int)
    requires
        0 <= i <= s.len(),
        scan_from(s, i) is Err,
    ensures
        exists|m: int|
            i <= m < s.len() && scan_from(s, i) == Err::<Seq<TokenV>, LexError>(
                LexError::UnsupportedToken(#[trigger] s[m]),
            ) && !is_ws(s[m]) && !is_symbol(s[m]) && !is_digit_char(s[m]),
    decreases s.len() - i,
{
    let c = s[i];
    if is_ws(c) || is_symbol(c) {
        lemma_scan_err_shape(s, i + 1);
    } else if is_digit_char(c) {
        let e = number_end(s, i);
        lemma_digit_run_bound(s, i);
        if i + digit_run(s, i) + 1 < s.len() {
            lemma_digit_run_bound(s, i + digit_run(s, i) + 1);
        }
        assert(digit_run(s, i) >= 1);
        lemma_scan_err_shape(s, e);
    } else {
        assert(i <= i < s.len() && scan_from(s, i) == Err::<Seq<TokenV>, LexError>(
            LexError::UnsupportedToken(s[i]),
        ) && !is_ws(s[i]) && !is_symbol(s[i]) && !is_digit_char(s[i]));
    }
}

/// An input holding any character outside whitespace, the symbols, the
/// digits and `.` fails to scan, with an `UnsupportedToken` that carries a
/// character of the input that fits no token rule.
pub proof fn lemma_scan_unsupported(s: Seq<char>)
    requires
        exists|j: int| 0 <= j < s.len() && !is_scannable(#[trigger] s[j]),
    ensures
        scan_model(s) is Err,
        exists|c: char|
            scan_model(s) == Err::<Seq<TokenV>, LexError>(
                LexError::UnsupportedToken(c),
            ) && s.contains(c) && !is_ws(c) && !is_symbol(c) && !is_digit_char(c),
{
    if scan_model(s) is Ok {
        lemma_scan_ok_chars(s, 0);
        assert(false);
    }
    lemma_scan_err_shape(s, 0);
    let m = choose|m: int|
        0 <= m < s.len() && scan_from(s, 0) == Err::<Seq<TokenV>, LexError>(
            LexError::UnsupportedToken(#[trigger] s[m]),
        ) && !is_ws(s[m]) && !is_symbol(s[m]) && !is_digit_char(s[m]);
    assert(s.contains(s[m]));
}

/// Does a token carry a well-formed numeric span, if it is a number at all?
pub open spec fn number_token_ok(t: TokenV) -> bool {
    match t {
        TokenV::Number(text) => is_number_span(text),
        _ => true,
    }
}

/// The numeric span consumed at a digit is itself a whole number span.
proof fn lemma_number_span_subrange(s: Seq<char>, i: int)
    requires
        0 <= i < s.len(),
        is_digit_char(s[i]),
    ensures
        is_number_span(s.subrange(i, number_end(s, i))),
{
    let e = number_end(s, i);
    lemma_digit_run_bound(s, i);
    lemma_digit_run_digits(s, i);
    let k = i + digit_run(s, i);
    assert(digit_run(s, i) >= 1);
    let sub = s.subrange(i, e);
    if k < s.len() && s[k] == '.' && k + 1 < s.len() && is_digit_char(s[k + 1]) {
        lemma_digit_run_bound(s, k + 1);
        lemma_digit_run_digits(s, k + 1);
        let kk = k - i;
        assert(digit_run(s, k + 1) >= 1);
        assert(sub[kk] == '.');
        assert forall|j: int| 0 <= j < kk implies is_digit_char(#[trigger] sub[j]) by {
            assert(sub[j] == s[i + j]);
        }
        assert forall|j: int| kk + 1 <= j < sub.len() implies is_digit_char(
            #[trigger] sub[j],
        ) by {
            assert(sub[j] == s[i + j]);
        }
        assert(1 <= kk < sub.len() - 1 && sub[kk] == '.' && all_digits(sub, 0, kk) && all_digits(
            sub,
            kk + 1,
            sub.len() as int,
        ));
    } else {
        assert forall|j: int| 0 <= j < sub.len() implies is_digit_char(#[trigger] sub[j]) by {
            assert(sub[j] == s[i + j]);
        }
    }
}

/// From position `i` on, every number token of a successful scan carries a
/// whole numeric span.
proof fn lemma_scan_from_number_spans(s: Seq<char>, i: int, ts: Seq<TokenV>)
    requires
        0 <= i <= s.len(),
        scan_from(s, i) == Ok::<Seq<TokenV>, LexError>(ts),
    ensures
        forall|j: int| 0 <= j < ts.len() ==> number_token_ok(#[trigger] ts[j]),
    decreases s.len() - i,
{
    if i < s.len() {
        let c = s[i];
        if is_ws(c) {
            lemma_scan_from_number_spans(s, i + 1, ts);
        } else if is_symbol(c) {
            match scan_from(s, i + 1) {
                Ok(ts2) => {
                    lemma_scan_from_number_spans(s, i + 1, ts2);
                    assert(ts == seq![symbol_tokv(c)] + ts2);
                    assert forall|j: int| 0 <= j < ts.len() implies number_token_ok(
                        #[trigger] ts[j],
                    ) by {
                        if j > 0 {
                            assert(ts[j] == ts2[j - 1]);
                        }
                    }
                },
                Err(_) => {},
            }
        } else if is_digit_char(c) {
            let e = number_end(s, i);
            lemma_digit_run_bound(s, i);
            if i + digit_run(s, i) + 1 < s.len() {
                lemma_digit_run_bound(s, i + digit_run(s, i) + 1);
            }
            assert(digit_run(s, i) >= 1);
            match scan_from(s, e) {
                Ok(ts2) => {
                    lemma_scan_from_number_spans(s, e, ts2);
                    lemma_number_span_subrange(s, i);
                    assert(ts == seq![TokenV::Number(s.subrange(i, e))] + ts2);
                    assert forall|j: int| 0 <= j < ts.len() implies number_token_ok(
                        #[trigger] ts[j],
                    ) by {
                        if j > 0 {
                            assert(ts[j] == ts2[j - 1]);
                        }
                    }
                },
                Err(_) => {},
            }
        }
    }
}

/// Every number token a successful scan yields carries a whole numeric
/// span: a digit run, or a digit run, a `.` and a further digit run. Its
/// base-10 interpretation is therefore always defined.
pub proof fn lemma_scan_number_tokens_well_formed(s: Seq<char>, ts: Seq<TokenV>)
    requires
        scan_model(s) == Ok::<Seq<TokenV>, LexError>(ts),
    ensures
        forall|j: int| 0 <= j < ts.len() ==> number_token_ok(#[trigger] ts[j]),
{
    lemma_scan_from_number_spans(s, 0, ts);
}


} // verus!
