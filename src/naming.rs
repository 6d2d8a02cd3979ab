//! Alert names derived from selectors, and the `absent` call that watches a
//! selector.
use vstd::prelude::*;

use crate::duration::{duration_text, Duration};
use crate::selector::{
    label_views, metric_text, selector_text, LabelMatcher, MatchOp, LabelMatcherView, VectorSelector, VectorSelectorView,
};
use crate::text::{decimal, digit_char, push_str, string_of};

verus! {

/// Whether `c` is in `[a-zA-Z0-9_]`.
pub open spec fn is_word_char(c: char) -> bool {
    ('a' <= c && c <= 'z') || ('A' <= c && c <= 'Z') || ('0' <= c && c <= '9') || c == '_'
}

/// The characters a label value keeps in an alert name: `[a-zA-Z0-9_:]`.
pub open spec fn kept_in_name(c: char) -> bool {
    is_word_char(c) || c == ':'
}

/// The value with every character outside `[a-zA-Z0-9_:]` replaced by `_`.
pub open spec fn sanitized(v: Seq<char>) -> Seq<char> {
    v.map_values(|c: char|
        if kept_in_name(c) {
            c
        } else {
            '_'
        })
}

/// The word that stands for a matcher operator in an alert name.
pub open spec fn op_name(op: MatchOp) -> Seq<char> {
    match op {
        MatchOp::Equal => "equal"@,
        MatchOp::NotEqual => "notequal"@,
        MatchOp::RegexEqual => "regexequal"@,
        MatchOp::RegexNotEqual => "regexnotequal"@,
    }
}

pub open spec fn matcher_name(l: LabelMatcherView) -> Seq<char> {
    l.key + seq!['_'] + op_name(l.op) + seq!['_'] + sanitized(l.value)
}

/// The matchers' name parts joined by `_`.
pub open spec fn matchers_name(ls: Seq<LabelMatcherView>) -> Seq<char>
    decreases ls.len(),
{
    if ls.len() == 0 {
        Seq::empty()
    } else if ls.len() == 1 {
        matcher_name(ls[0])
    } else {
        matchers_name(ls.drop_last()) + seq!['_'] + matcher_name(ls.last())
    }
}

pub open spec fn name_labels_part(s: VectorSelectorView) -> Seq<char> {
    if s.labels.len() == 0 {
        Seq::empty()
    } else {
        seq!['_'] + matchers_name(s.labels)
    }
}

pub open spec fn name_range_part(s: VectorSelectorView) -> Seq<char> {
    match s.range {
        Some(r) => seq!['_'] + duration_text(r),
        None => Seq::empty(),
    }
}

pub open spec fn name_offset_part(s: VectorSelectorView) -> Seq<char> {
    match s.offset {
        Some(o) => "_offset_"@ + duration_text(o),
        None => Seq::empty(),
    }
}

/// The alert name of a selector: `absent_`, the metric, the matchers, the
/// range and the offset, joined by underscores. A subquery window takes no
/// part in it.
pub open spec fn alert_name(s: VectorSelectorView) -> Seq<char> {
    "absent_"@ + metric_text(s) + name_labels_part(s) + name_range_part(s) + name_offset_part(s)
}

/// The name of the function that reports a selector's data missing: the
/// range-vector form for a selector with a range.
pub open spec fn absent_function(s: VectorSelectorView) -> Seq<char> {
    if s.range is Some {
        "absent_over_time"@
    } else {
        "absent"@
    }
}

/// The expression that fires when the selector has no data.
pub open spec fn absent_call(s: VectorSelectorView) -> Seq<char> {
    absent_function(s) + seq!['('] + selector_text(s) + seq![')']
}

/// Relies on `regex::Regex::replace_all`: under the class `[^a-zA-Z0-9_:]`
/// each character outside `[a-zA-Z0-9_:]` is one match, and each match is
/// replaced by the literal `_` (a replacement without `$` is taken as is).
#[verifier::external_body]
fn regex_replace_all(pattern: &str, text: &str, replacement: &str) -> (r: String)
    requires
        pattern@ == "[^a-zA-Z0-9_:]"@,
        replacement@ == "_"@,
    ensures
        r@ == sanitized(text@),
{
    match regex::Regex::new(pattern) {
        Ok(re) => re.replace_all(text, replacement).into_owned(),
        Err(_) => String::new(),
    }
}

fn sanitize_into(v: &str, out: &mut Vec<char>)
    ensures
        final(out)@ == old(out)@ + sanitized(v@),
{
    let cleaned = regex_replace_all("[^a-zA-Z0-9_:]", v, "_");
    push_str(out, cleaned.as_str());
}

fn push_matcher_name(l: &LabelMatcher, out: &mut Vec<char>)
    ensures
        final(out)@ == old(out)@ + matcher_name(l@),
{
    push_str(out, l.key.as_str());
    out.push('_');
    let ghost mid = out@;
    match l.op {
        MatchOp::Equal => {
            proof {
                reveal_strlit("equal");
            }
            push_str(out, "equal");
        },
        MatchOp::NotEqual => {
            proof {
                reveal_strlit("notequal");
            }
            push_str(out, "notequal");
        },
        MatchOp::RegexEqual => {
            proof {
                reveal_strlit("regexequal");
            }
            push_str(out, "regexequal");
        },
        MatchOp::RegexNotEqual => {
            proof {
                reveal_strlit("regexnotequal");
            }
            push_str(out, "regexnotequal");
        },
    }
    assert(out@ =~= mid + op_name(l.op));
    out.push('_');
    sanitize_into(l.value.as_str(), out);
    assert(out@ =~= old(out)@ + matcher_name(l@));
}

fn push_labels_part(labels: &Vec<LabelMatcher>, out: &mut Vec<char>)
    ensures
        final(out)@ == old(out)@ + (if labels@.len() == 0 {
            Seq::empty()
        } else {
            seq!['_'] + matchers_name(label_views(labels@))
        }),
{
    let n = labels.len();
    if n == 0 {
        assert(out@ =~= old(out)@ + Seq::<char>::empty());
        return;
    }
    out.push('_');
    let ghost open = out@;
    let ghost all = label_views(labels@);
    let mut i: usize = 0;
    while i < n
        invariant
            n == labels.len(),
            all == label_views(labels@),
            i <= n,
            out@ == open + matchers_name(all.subrange(0, i as int)),
        decreases n - i,
    {
        if i > 0 {
            out.push('_');
        }
        push_matcher_name(&labels[i], out);
        i = i + 1;
        proof {
            let ls = all.subrange(0, i as int);
            assert(ls.drop_last() =~= all.subrange(0, i - 1 as int));
            assert(ls.last() == labels@[i - 1]@);
            if i == 1 {
                assert(matchers_name(all.subrange(0, 0)) =~= Seq::<char>::empty());
            }
            assert(out@ =~= open + matchers_name(ls));
        }
    }
    assert(all.subrange(0, n as int) =~= all);
    assert(out@ =~= old(out)@ + (seq!['_'] + matchers_name(all)));
}

/// The alert name for a selector: `absent_`, the metric, each matcher as
/// `<key>_<operator word>_<value>` with the value's characters outside
/// `[a-zA-Z0-9_:]` replaced by `_`, then `_<range>` and `_offset_<offset>`;
/// a subquery window takes no part in it.
pub fn build_absent_selector_alert_name(selector: &VectorSelector) -> (r: String)
    ensures
        r@ == alert_name(selector@),
{
    let mut out: Vec<char> = Vec::new();
    proof {
        reveal_strlit("absent_");
    }
    push_str(&mut out, "absent_");
    if let Some(m) = &selector.metric {
        push_str(&mut out, m.as_str());
    }
    let ghost after_metric = out@;
    push_labels_part(&selector.labels, &mut out);
    let ghost after_labels = out@;
    if let Some(r) = &selector.range {
        out.push('_');
        r.push_text(&mut out);
    }
    let ghost after_range = out@;
    if let Some(o) = &selector.offset {
        proof {
            reveal_strlit("_offset_");
        }
        push_str(&mut out, "_offset_");
        o.push_text(&mut out);
    }
    assert(out@ =~= "absent_"@ + metric_text(selector@) + name_labels_part(selector@)
        + name_range_part(selector@) + name_offset_part(selector@));
    string_of(&out)
}

/// The expression text that fires when the selector has no data:
/// `absent_over_time(<selector>)` for a selector with a range, else
/// `absent(<selector>)`.
pub fn wrap_selector_in_absent(selector: &VectorSelector) -> (r: String)
    ensures
        r@ == absent_call(selector@),
{
    let mut out: Vec<char> = Vec::new();
    if selector.range.is_some() {
        proof {
            reveal_strlit("absent_over_time");
        }
        push_str(&mut out, "absent_over_time");
    } else {
        proof {
            reveal_strlit("absent");
        }
        push_str(&mut out, "absent");
    }
    out.push('(');
    selector.push_text(&mut out);
    out.push(')');
    assert(out@ =~= absent_call(selector@));
    string_of(&out)
}

/// Whether every character of `s` is in `[a-zA-Z0-9_]`.
pub open spec fn all_word(s: Seq<char>) -> bool {
    forall|i: int| 0 <= i < s.len() ==> is_word_char(#[trigger] s[i])
}

/// Whether `n` matches `[a-zA-Z_][a-zA-Z0-9_]*`.
pub open spec fn is_identifier(n: Seq<char>) -> bool {
    &&& n.len() > 0
    &&& !('0' <= n[0] && n[0] <= '9')
    &&& all_word(n)
}

proof fn lemma_all_word_concat(a: Seq<char>, b: Seq<char>)
    requires
        all_word(a),
        all_word(b),
    ensures
        all_word(a + b),
{
    assert forall|i: int| 0 <= i < (a + b).len() implies is_word_char(#[trigger] (a + b)[i]) by {
        if i >= a.len() {
            assert((a + b)[i] == b[i - a.len()]);
        }
    }
}

proof fn lemma_decimal_all_word(n: nat)
    ensures
        all_word(decimal(n)),
    decreases n,
{
    if n >= 10 {
        lemma_decimal_all_word(n / 10);
        lemma_all_word_concat(decimal(n / 10), seq![digit_char(n % 10)]);
    }
}

proof fn lemma_duration_all_word(d: Duration)
    ensures
        all_word(duration_text(d)),
{
    lemma_decimal_all_word(crate::duration::magnitude(d) as nat);
    lemma_all_word_concat(
        decimal(crate::duration::magnitude(d) as nat),
        seq![crate::duration::unit_char(d)],
    );
}

proof fn lemma_matcher_all_word(l: LabelMatcherView)
    requires
        all_word(l.key),
        !l.value.contains(':'),
    ensures
        all_word(matcher_name(l)),
{
    reveal_strlit("equal");
    reveal_strlit("notequal");
    reveal_strlit("regexequal");
    reveal_strlit("regexnotequal");
    assert(all_word(op_name(l.op)));
    assert forall|i: int| 0 <= i < sanitized(l.value).len() implies is_word_char(
        #[trigger] sanitized(l.value)[i],
    ) by {
        assert(l.value[i] != ':');
    }
    lemma_all_word_concat(l.key, seq!['_']);
    lemma_all_word_concat(l.key + seq!['_'], op_name(l.op));
    lemma_all_word_concat(l.key + seq!['_'] + op_name(l.op), seq!['_']);
    lemma_all_word_concat(l.key + seq!['_'] + op_name(l.op) + seq!['_'], sanitized(l.value));
}

proof fn lemma_matchers_all_word(ls: Seq<LabelMatcherView>)
    requires
        forall|i: int|
            0 <= i < ls.len() ==> all_word((#[trigger] ls[i]).key) && !ls[i].value.contains(':'),
    ensures
        all_word(matchers_name(ls)),
    decreases ls.len(),
{
    if ls.len() == 1 {
        lemma_matcher_all_word(ls[0]);
    } else if ls.len() > 1 {
        assert forall|i: int| 0 <= i < ls.drop_last().len() implies all_word(
            (#[trigger] ls.drop_last()[i]).key,
        ) && !ls.drop_last()[i].value.contains(':') by {
            assert(ls.drop_last()[i] == ls[i]);
        }
        lemma_matchers_all_word(ls.drop_last());
        lemma_matcher_all_word(ls.last());
        lemma_all_word_concat(matchers_name(ls.drop_last()), seq!['_']);
        lemma_all_word_concat(matchers_name(ls.drop_last()) + seq!['_'], matcher_name(ls.last()));
    }
}

/// Alert names are identifiers (`[a-zA-Z_][a-zA-Z0-9_]*`) whenever the
/// metric name and the label keys are made of `[a-zA-Z0-9_]` and no label
/// value holds a `:` (the one character the name keeps beyond that class).
pub proof fn lemma_alert_name_is_identifier(s: VectorSelectorView)
    requires
        s.metric is Some ==> all_word(s.metric->0),
        forall|i: int|
            0 <= i < s.labels.len() ==> all_word((#[trigger] s.labels[i]).key)
                && !s.labels[i].value.contains(':'),
    ensures
        is_identifier(alert_name(s)),
{
    reveal_strlit("absent_");
    reveal_strlit("_offset_");
    let head = "absent_"@;
    assert(all_word(head));
    assert(all_word(metric_text(s)));
    lemma_matchers_all_word(s.labels);
    lemma_all_word_concat(seq!['_'], matchers_name(s.labels));
    assert(all_word(name_labels_part(s)));
    if let Some(r) = s.range {
        lemma_duration_all_word(r);
        lemma_all_word_concat(seq!['_'], duration_text(r));
    }
    assert(all_word(name_range_part(s)));
    if let Some(o) = s.offset {
        lemma_duration_all_word(o);
        lemma_all_word_concat("_offset_"@, duration_text(o));
    }
    assert(all_word(name_offset_part(s)));
    lemma_all_word_concat(head, metric_text(s));
    lemma_all_word_concat(head + metric_text(s), name_labels_part(s));
    lemma_all_word_concat(head + metric_text(s) + name_labels_part(s), name_range_part(s));
    lemma_all_word_concat(
        head + metric_text(s) + name_labels_part(s) + name_range_part(s),
        name_offset_part(s),
    );
    assert(alert_name(s)[0] == 'a');
}

} // verus!
