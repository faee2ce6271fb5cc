//! What becomes of the tokens that Gemma 4 leaks.

use vstd::prelude::*;

use crate::processors::gemma4::{
    argument_rules, content_rules, lemma_rewritten_absent, rewritten,
};
use crate::text::{has_text, law_replace_first, lemma_replace_absent, occurs_at};

verus! {

/// A text in which no bar has at its side what a bar of `p` has does not hold `p`.
proof fn lemma_no_match(t: Seq<char>, p: Seq<char>, m: int, d: int, e: int)
    requires
        0 <= m < p.len(),
        p[m] == '|',
        0 <= m + d < p.len(),
        0 <= m + e < p.len(),
        forall|k: int|
            0 <= k < t.len() && #[trigger] t[k] == '|' ==> !(0 <= k + d < t.len() && t[k + d] == p[m
                + d]) || !(0 <= k + e < t.len() && t[k + e] == p[m + e]),
    ensures
        !has_text(t, p),
{
    if has_text(t, p) {
        let i = choose|i: int| occurs_at(t, p, i);
        let part = t.subrange(i, i + p.len());
        assert(part[m] == t[i + m]);
        assert(part[m + d] == t[i + m + d]);
        assert(part[m + e] == t[i + m + e]);
        assert(t[i + m] == '|');
    }
}

/// A text without bars holds nothing that has one.
proof fn lemma_no_bar(t: Seq<char>, p: Seq<char>, m: int)
    requires
        0 <= m < p.len(),
        p[m] == '|',
        !t.contains('|'),
    ensures
        !has_text(t, p),
{
    assert forall|k: int| 0 <= k < t.len() implies #[trigger] t[k] != '|' by {
        assert(t.contains(t[k]));
    }
    lemma_no_match(t, p, m, 0, 0);
}

/// Rules that find nothing in what rules before them made of a text leave it.
proof fn lemma_later_rules(
    s: Seq<char>,
    rules: Seq<(Seq<char>, Seq<char>)>,
    k: int,
    u: Seq<char>,
)
    requires
        0 <= k <= rules.len(),
        rewritten(s, rules.take(k)) == u,
        forall|j: int| k <= j < rules.len() ==> !has_text(u, (#[trigger] rules[j]).0),
    ensures
        rewritten(s, rules) == u,
    decreases rules.len() - k,
{
    if k == rules.len() {
        assert(rules.take(k) =~= rules);
    } else {
        let next = rules.take(k + 1);
        assert(next.drop_last() =~= rules.take(k));
        assert(next.last() == rules[k]);
        lemma_replace_absent(u, rules[k].0, rules[k].1);
        lemma_later_rules(s, rules, k + 1, u);
    }
}

/// A token between texts without bars is replaced, if no rule before its own finds
/// anything, and all else stays.
proof fn lemma_token(
    x: Seq<char>,
    y: Seq<char>,
    rules: Seq<(Seq<char>, Seq<char>)>,
    k: int,
    m: int,
)
    requires
        !x.contains('|'),
        !y.contains('|'),
        0 <= k < rules.len(),
        0 <= m < rules[k].0.len(),
        rules[k].0[m] == '|',
        forall|i: int| 0 <= i < m ==> #[trigger] rules[k].0[i] != '|',
        !rules[k].1.contains('|'),
        forall|j: int| 0 <= j < k ==> !has_text(x + rules[k].0 + y, (#[trigger] rules[j]).0),
        forall|j: int|
            0 <= j < rules.len() ==> (#[trigger] rules[j]).0.contains('|'),
    ensures
        rewritten(x + rules[k].0 + y, rules) == x + rules[k].1 + y,
{
    let t = rules[k].0;
    let r = rules[k].1;
    let s = x + t + y;
    let u = x + r + y;
    assert forall|j: int| 0 <= j < k implies !has_text(s, (#[trigger] rules.take(k)[j]).0) by {
        assert(rules.take(k)[j] == rules[j]);
    }
    lemma_rewritten_absent(s, rules.take(k));
    assert forall|j: int| 0 <= j < x.len() implies !occurs_at(s, t, j) by {
        if occurs_at(s, t, j) {
            assert(s.subrange(j, j + t.len())[m] == s[j + m]);
            if j + m < x.len() {
                assert(x.contains(x[j + m]));
            } else {
                assert(s[j + m] == t[j + m - x.len()]);
            }
        }
    }
    law_replace_first(x, t, r, y);
    lemma_no_bar(y, t, m);
    lemma_replace_absent(y, t, r);
    let next = rules.take(k + 1);
    assert(next.drop_last() =~= rules.take(k));
    assert(next.last() == rules[k]);
    assert(rewritten(s, next) == u);
    assert(!u.contains('|')) by {
        if u.contains('|') {
            let i = choose|i: int| 0 <= i < u.len() && u[i] == '|';
            if i < x.len() {
                assert(x.contains(x[i]));
            } else if i < x.len() + r.len() {
                assert(r.contains(r[i - x.len()]));
            } else {
                assert(y.contains(y[i - x.len() - r.len()]));
            }
        }
    }
    assert forall|j: int| k + 1 <= j < rules.len() implies !has_text(
        u,
        (#[trigger] rules[j]).0,
    ) by {
        let i = choose|i: int| 0 <= i < rules[j].0.len() && rules[j].0[i] == '|';
        lemma_no_bar(u, rules[j].0, i);
    }
    lemma_later_rules(s, rules, k + 1, u);
}

/// The characters of the tokens.
proof fn lemma_tokens()
    ensures
        "<|tool_call>"@ == seq!['<', '|', 't', 'o', 'o', 'l', '_', 'c', 'a', 'l', 'l', '>'],
        "<tool_call|>"@ == seq!['<', 't', 'o', 'o', 'l', '_', 'c', 'a', 'l', 'l', '|', '>'],
        "<|tool_call|>"@ == seq!['<', '|', 't', 'o', 'o', 'l', '_', 'c', 'a', 'l', 'l', '|', '>'],
        "<|\"|>"@ == seq!['<', '|', '"', '|', '>'],
        "<|\\\"|"@ == seq!['<', '|', '\\', '"', '|'],
        "<|\\\""@ == seq!['<', '|', '\\', '"'],
        "<|\""@ == seq!['<', '|', '"'],
        "\"|>"@ == seq!['"', '|', '>'],
        "<|\\"@ == seq!['<', '|', '\\'],
        "<|"@ == seq!['<', '|'],
        "|>"@ == seq!['|', '>'],
        "\"|"@ == seq!['"', '|'],
        "|\""@ == seq!['|', '"'],
        ""@ == Seq::<char>::empty(),
        "\""@ == seq!['"'],
{
    reveal_strlit("<|tool_call>");
    reveal_strlit("<tool_call|>");
    reveal_strlit("<|tool_call|>");
    reveal_strlit("<|\"|>");
    reveal_strlit("<|\\\"|");
    reveal_strlit("<|\\\"");
    reveal_strlit("<|\"");
    reveal_strlit("\"|>");
    reveal_strlit("<|\\");
    reveal_strlit("<|");
    reveal_strlit("|>");
    reveal_strlit("\"|");
    reveal_strlit("|\"");
    reveal_strlit("");
    reveal_strlit("\"");
    assert("<|tool_call>"@ =~= seq!['<', '|', 't', 'o', 'o', 'l', '_', 'c', 'a', 'l', 'l', '>']);
    assert("<tool_call|>"@ =~= seq!['<', 't', 'o', 'o', 'l', '_', 'c', 'a', 'l', 'l', '|', '>']);
    assert("<|tool_call|>"@ =~= seq!['<', '|', 't', 'o', 'o', 'l', '_', 'c', 'a', 'l', 'l', '|', '>']);
    assert("<|\"|>"@ =~= seq!['<', '|', '"', '|', '>']);
    assert("<|\\\"|"@ =~= seq!['<', '|', '\\', '"', '|']);
    assert("<|\\\""@ =~= seq!['<', '|', '\\', '"']);
    assert("<|\""@ =~= seq!['<', '|', '"']);
    assert("\"|>"@ =~= seq!['"', '|', '>']);
    assert("<|\\"@ =~= seq!['<', '|', '\\']);
    assert("<|"@ =~= seq!['<', '|']);
    assert("|>"@ =~= seq!['|', '>']);
    assert("\"|"@ =~= seq!['"', '|']);
    assert("|\""@ =~= seq!['|', '"']);
    assert(""@ =~= Seq::<char>::empty());
    assert("\""@ =~= seq!['"']);
}

/// Every rule looks for something with a bar in it.
proof fn lemma_rules_have_bars()
    ensures
        forall|j: int|
            0 <= j < argument_rules().len() ==> (#[trigger] argument_rules()[j]).0.contains('|'),
        forall|j: int|
            0 <= j < content_rules().len() ==> (#[trigger] content_rules()[j]).0.contains('|'),
{
    lemma_tokens();
    let a = argument_rules();
    assert(a[0].0[1] == '|');
    assert(a[1].0[10] == '|');
    assert(a[2].0[1] == '|');
    assert(a[3].0[1] == '|');
    assert(a[4].0[1] == '|');
    assert(a[5].0[1] == '|');
    assert(a[6].0[1] == '|');
    assert(a[7].0[1] == '|');
    assert(a[8].0[1] == '|');
    assert(a[9].0[1] == '|');
    assert(a[10].0[0] == '|');
    assert(a[11].0[1] == '|');
    assert(a[12].0[0] == '|');
    let c = content_rules();
    assert(c[0].0[1] == '|');
    assert(c[1].0[10] == '|');
    assert(c[2].0[1] == '|');
    assert(c[3].0[1] == '|');
    assert(c[4].0[1] == '|');
    assert(c[5].0[1] == '|');
    assert(c[6].0[1] == '|');
    assert forall|j: int| 0 <= j < a.len() implies (#[trigger] a[j]).0.contains('|') by {
        assert(j == 0 || j == 1 || j == 2 || j == 3 || j == 4 || j == 5 || j == 6 || j == 7 || j == 8 || j == 9 || j == 10 || j == 11 || j == 12);
    }
    assert forall|j: int| 0 <= j < c.len() implies (#[trigger] c[j]).0.contains('|') by {
        assert(j == 0 || j == 1 || j == 2 || j == 3 || j == 4 || j == 5 || j == 6);
    }
}

/// What becomes of this token between texts without bars.
proof fn lemma_argument_token_0(x: Seq<char>, y: Seq<char>)
    requires
        !x.contains('|'),
        !y.contains('|'),
    ensures
        rewritten(x + "<|tool_call>"@ + y, argument_rules()) == x + ""@ + y,
{
    lemma_tokens();
    lemma_rules_have_bars();
    let rules = argument_rules();
    let t = x + "<|tool_call>"@ + y;
    assert forall|k: int| 0 <= k < t.len() && #[trigger] t[k] == '|' implies k == x.len() + 1 by {
        if k < x.len() {
            assert(x.contains(x[k]));
        } else if k >= x.len() + 12 {
            assert(y.contains(y[k - x.len() - 12]));
        }
    }
    if y.len() > 0 {
        assert(y.contains(y[0]));
    }
    assert(!""@.contains('|'));
    lemma_token(x, y, rules, 0, 1);
}

/// What becomes of this token between texts without bars.
proof fn lemma_argument_token_1(x: Seq<char>, y: Seq<char>)
    requires
        !x.contains('|'),
        !y.contains('|'),
    ensures
        rewritten(x + "<tool_call|>"@ + y, argument_rules()) == x + ""@ + y,
{
    lemma_tokens();
    lemma_rules_have_bars();
    let rules = argument_rules();
    let t = x + "<tool_call|>"@ + y;
    assert forall|k: int| 0 <= k < t.len() && #[trigger] t[k] == '|' implies k == x.len() + 10 by {
        if k < x.len() {
            assert(x.contains(x[k]));
        } else if k >= x.len() + 12 {
            assert(y.contains(y[k - x.len() - 12]));
        }
    }
    if y.len() > 0 {
        assert(y.contains(y[0]));
    }
    lemma_no_match(t, "<|tool_call>"@, 1, -1, -1);
    assert forall|j: int| 0 <= j < 1 implies !has_text(t, (#[trigger] rules[j]).0) by {
        assert(j == 0);
    }
    assert(!""@.contains('|'));
    lemma_token(x, y, rules, 1, 10);
}

/// What becomes of this token between texts without bars.
proof fn lemma_argument_token_2(x: Seq<char>, y: Seq<char>)
    requires
        !x.contains('|'),
        !y.contains('|'),
    ensures
        rewritten(x + "<|tool_call|>"@ + y, argument_rules()) == x + ""@ + y,
{
    lemma_tokens();
    lemma_rules_have_bars();
    let rules = argument_rules();
    let t = x + "<|tool_call|>"@ + y;
    assert forall|k: int| 0 <= k < t.len() && #[trigger] t[k] == '|' implies k == x.len() + 1 || k == x.len() + 11 by {
        if k < x.len() {
            assert(x.contains(x[k]));
        } else if k >= x.len() + 13 {
            assert(y.contains(y[k - x.len() - 13]));
        }
    }
    if y.len() > 0 {
        assert(y.contains(y[0]));
    }
    lemma_no_match(t, "<|tool_call>"@, 1, -1, 10);
    lemma_no_match(t, "<tool_call|>"@, 10, -10, -1);
    assert forall|j: int| 0 <= j < 2 implies !has_text(t, (#[trigger] rules[j]).0) by {
        assert(j == 0 || j == 1);
    }
    assert(!""@.contains('|'));
    lemma_token(x, y, rules, 2, 1);
}

/// What becomes of this token between texts without bars.
proof fn lemma_argument_token_3(x: Seq<char>, y: Seq<char>)
    requires
        !x.contains('|'),
        !y.contains('|'),
    ensures
        rewritten(x + "<|\"|>"@ + y, argument_rules()) == x + "\""@ + y,
{
    lemma_tokens();
    lemma_rules_have_bars();
    let rules = argument_rules();
    let t = x + "<|\"|>"@ + y;
    assert forall|k: int| 0 <= k < t.len() && #[trigger] t[k] == '|' implies k == x.len() + 1 || k == x.len() + 3 by {
        if k < x.len() {
            assert(x.contains(x[k]));
        } else if k >= x.len() + 5 {
            assert(y.contains(y[k - x.len() - 5]));
        }
    }
    if y.len() > 0 {
        assert(y.contains(y[0]));
    }
    lemma_no_match(t, "<|tool_call>"@, 1, -1, 1);
    lemma_no_match(t, "<tool_call|>"@, 10, -10, -1);
    lemma_no_match(t, "<|tool_call|>"@, 1, -1, 1);
    assert forall|j: int| 0 <= j < 3 implies !has_text(t, (#[trigger] rules[j]).0) by {
        assert(j == 0 || j == 1 || j == 2);
    }
    assert(!"\""@.contains('|'));
    lemma_token(x, y, rules, 3, 1);
}

/// What becomes of this token between texts without bars.
proof fn lemma_argument_token_4(x: Seq<char>, y: Seq<char>)
    requires
        !x.contains('|'),
        !y.contains('|'),
    ensures
        rewritten(x + "<|\\\"|"@ + y, argument_rules()) == x + "\""@ + y,
{
    lemma_tokens();
    lemma_rules_have_bars();
    let rules = argument_rules();
    let t = x + "<|\\\"|"@ + y;
    assert forall|k: int| 0 <= k < t.len() && #[trigger] t[k] == '|' implies k == x.len() + 1 || k == x.len() + 4 by {
        if k < x.len() {
            assert(x.contains(x[k]));
        } else if k >= x.len() + 5 {
            assert(y.contains(y[k - x.len() - 5]));
        }
    }
    if y.len() > 0 {
        assert(y.contains(y[0]));
    }
    lemma_no_match(t, "<|tool_call>"@, 1, -1, 1);
    lemma_no_match(t, "<tool_call|>"@, 10, -10, -1);
    lemma_no_match(t, "<|tool_call|>"@, 1, -1, 1);
    lemma_no_match(t, "<|\"|>"@, 1, -1, 1);
    assert forall|j: int| 0 <= j < 4 implies !has_text(t, (#[trigger] rules[j]).0) by {
        assert(j == 0 || j == 1 || j == 2 || j == 3);
    }
    assert(!"\""@.contains('|'));
    lemma_token(x, y, rules, 4, 1);
}

/// What becomes of this token between texts without bars.
proof fn lemma_argument_token_5(x: Seq<char>, y: Seq<char>)
    requires
        !x.contains('|'),
        !y.contains('|'),
    ensures
        rewritten(x + "<|\\\""@ + y, argument_rules()) == x + "\""@ + y,
{
    lemma_tokens();
    lemma_rules_have_bars();
    let rules = argument_rules();
    let t = x + "<|\\\""@ + y;
    assert forall|k: int| 0 <= k < t.len() && #[trigger] t[k] == '|' implies k == x.len() + 1 by {
        if k < x.len() {
            assert(x.contains(x[k]));
        } else if k >= x.len() + 4 {
            assert(y.contains(y[k - x.len() - 4]));
        }
    }
    if y.len() > 0 {
        assert(y.contains(y[0]));
    }
    lemma_no_match(t, "<|tool_call>"@, 1, -1, 1);
    lemma_no_match(t, "<tool_call|>"@, 10, -10, -1);
    lemma_no_match(t, "<|tool_call|>"@, 1, -1, 1);
    lemma_no_match(t, "<|\"|>"@, 1, -1, 1);
    lemma_no_match(t, "<|\\\"|"@, 1, -1, 3);
    assert forall|j: int| 0 <= j < 5 implies !has_text(t, (#[trigger] rules[j]).0) by {
        assert(j == 0 || j == 1 || j == 2 || j == 3 || j == 4);
    }
    assert(!"\""@.contains('|'));
    lemma_token(x, y, rules, 5, 1);
}

/// What becomes of this token between texts without bars.
proof fn lemma_argument_token_6(x: Seq<char>, y: Seq<char>)
    requires
        !x.contains('|'),
        !y.contains('|'),
    ensures
        rewritten(x + "<|\""@ + y, argument_rules()) == x + "\""@ + y,
{
    lemma_tokens();
    lemma_rules_have_bars();
    let rules = argument_rules();
    let t = x + "<|\""@ + y;
    assert forall|k: int| 0 <= k < t.len() && #[trigger] t[k] == '|' implies k == x.len() + 1 by {
        if k < x.len() {
            assert(x.contains(x[k]));
        } else if k >= x.len() + 3 {
            assert(y.contains(y[k - x.len() - 3]));
        }
    }
    if y.len() > 0 {
        assert(y.contains(y[0]));
    }
    lemma_no_match(t, "<|tool_call>"@, 1, -1, 1);
    lemma_no_match(t, "<tool_call|>"@, 10, -10, -1);
    lemma_no_match(t, "<|tool_call|>"@, 1, -1, 1);
    lemma_no_match(t, "<|\"|>"@, 1, -1, 2);
    lemma_no_match(t, "<|\\\"|"@, 1, -1, 1);
    lemma_no_match(t, "<|\\\""@, 1, -1, 1);
    assert forall|j: int| 0 <= j < 6 implies !has_text(t, (#[trigger] rules[j]).0) by {
        assert(j == 0 || j == 1 || j == 2 || j == 3 || j == 4 || j == 5);
    }
    assert(!"\""@.contains('|'));
    lemma_token(x, y, rules, 6, 1);
}

/// What becomes of this token between texts without bars.
proof fn lemma_argument_token_7(x: Seq<char>, y: Seq<char>)
    requires
        !x.contains('|'),
        !y.contains('|'),
    ensures
        rewritten(x + "\"|>"@ + y, argument_rules()) == x + "\""@ + y,
{
    lemma_tokens();
    lemma_rules_have_bars();
    let rules = argument_rules();
    let t = x + "\"|>"@ + y;
    assert forall|k: int| 0 <= k < t.len() && #[trigger] t[k] == '|' implies k == x.len() + 1 by {
        if k < x.len() {
            assert(x.contains(x[k]));
        } else if k >= x.len() + 3 {
            assert(y.contains(y[k - x.len() - 3]));
        }
    }
    if y.len() > 0 {
        assert(y.contains(y[0]));
    }
    lemma_no_match(t, "<|tool_call>"@, 1, -1, -1);
    lemma_no_match(t, "<tool_call|>"@, 10, -10, -1);
    lemma_no_match(t, "<|tool_call|>"@, 1, -1, -1);
    lemma_no_match(t, "<|\"|>"@, 1, -1, -1);
    lemma_no_match(t, "<|\\\"|"@, 1, -1, -1);
    lemma_no_match(t, "<|\\\""@, 1, -1, -1);
    lemma_no_match(t, "<|\""@, 1, -1, -1);
    assert forall|j: int| 0 <= j < 7 implies !has_text(t, (#[trigger] rules[j]).0) by {
        assert(j == 0 || j == 1 || j == 2 || j == 3 || j == 4 || j == 5 || j == 6);
    }
    assert(!"\""@.contains('|'));
    lemma_token(x, y, rules, 7, 1);
}

/// What becomes of this token between texts without bars.
proof fn lemma_argument_token_8(x: Seq<char>, y: Seq<char>)
    requires
        !x.contains('|'),
        !y.contains('|'),
        y.len() > 0 ==> y[0] != '"',
    ensures
        rewritten(x + "<|\\"@ + y, argument_rules()) == x + ""@ + y,
{
    lemma_tokens();
    lemma_rules_have_bars();
    let rules = argument_rules();
    let t = x + "<|\\"@ + y;
    assert forall|k: int| 0 <= k < t.len() && #[trigger] t[k] == '|' implies k == x.len() + 1 by {
        if k < x.len() {
            assert(x.contains(x[k]));
        } else if k >= x.len() + 3 {
            assert(y.contains(y[k - x.len() - 3]));
        }
    }
    if y.len() > 0 {
        assert(y.contains(y[0]));
    }
    lemma_no_match(t, "<|tool_call>"@, 1, -1, 1);
    lemma_no_match(t, "<tool_call|>"@, 10, -10, -1);
    lemma_no_match(t, "<|tool_call|>"@, 1, -1, 1);
    lemma_no_match(t, "<|\"|>"@, 1, -1, 1);
    lemma_no_match(t, "<|\\\"|"@, 1, -1, 2);
    lemma_no_match(t, "<|\\\""@, 1, -1, 2);
    lemma_no_match(t, "<|\""@, 1, -1, 1);
    lemma_no_match(t, "\"|>"@, 1, -1, -1);
    assert forall|j: int| 0 <= j < 8 implies !has_text(t, (#[trigger] rules[j]).0) by {
        assert(j == 0 || j == 1 || j == 2 || j == 3 || j == 4 || j == 5 || j == 6 || j == 7);
    }
    assert(!""@.contains('|'));
    lemma_token(x, y, rules, 8, 1);
}

/// What becomes of this token between texts without bars.
proof fn lemma_argument_token_9(x: Seq<char>, y: Seq<char>)
    requires
        !x.contains('|'),
        !y.contains('|'),
        y.len() > 0 ==> y[0] != '"' && y[0] != '\\' && y[0] != 't',
    ensures
        rewritten(x + "<|"@ + y, argument_rules()) == x + ""@ + y,
{
    lemma_tokens();
    lemma_rules_have_bars();
    let rules = argument_rules();
    let t = x + "<|"@ + y;
    assert forall|k: int| 0 <= k < t.len() && #[trigger] t[k] == '|' implies k == x.len() + 1 by {
        if k < x.len() {
            assert(x.contains(x[k]));
        } else if k >= x.len() + 2 {
            assert(y.contains(y[k - x.len() - 2]));
        }
    }
    if y.len() > 0 {
        assert(y.contains(y[0]));
    }
    lemma_no_match(t, "<|tool_call>"@, 1, -1, 1);
    lemma_no_match(t, "<tool_call|>"@, 10, -10, -1);
    lemma_no_match(t, "<|tool_call|>"@, 1, -1, 1);
    lemma_no_match(t, "<|\"|>"@, 1, -1, 1);
    lemma_no_match(t, "<|\\\"|"@, 1, -1, 1);
    lemma_no_match(t, "<|\\\""@, 1, -1, 1);
    lemma_no_match(t, "<|\""@, 1, -1, 1);
    lemma_no_match(t, "\"|>"@, 1, -1, -1);
    lemma_no_match(t, "<|\\"@, 1, -1, 1);
    assert forall|j: int| 0 <= j < 9 implies !has_text(t, (#[trigger] rules[j]).0) by {
        assert(j == 0 || j == 1 || j == 2 || j == 3 || j == 4 || j == 5 || j == 6 || j == 7 || j == 8);
    }
    assert(!""@.contains('|'));
    lemma_token(x, y, rules, 9, 1);
}

/// What becomes of this token between texts without bars.
proof fn lemma_argument_token_10(x: Seq<char>, y: Seq<char>)
    requires
        !x.contains('|'),
        !y.contains('|'),
        x.len() > 0 ==> x.last() != '<' && x.last() != '"' && x.last() != 'l',
    ensures
        rewritten(x + "|>"@ + y, argument_rules()) == x + ""@ + y,
{
    lemma_tokens();
    lemma_rules_have_bars();
    let rules = argument_rules();
    let t = x + "|>"@ + y;
    assert forall|k: int| 0 <= k < t.len() && #[trigger] t[k] == '|' implies k == x.len() + 0 by {
        if k < x.len() {
            assert(x.contains(x[k]));
        } else if k >= x.len() + 2 {
            assert(y.contains(y[k - x.len() - 2]));
        }
    }
    if y.len() > 0 {
        assert(y.contains(y[0]));
    }
    lemma_no_match(t, "<|tool_call>"@, 1, -1, -1);
    lemma_no_match(t, "<tool_call|>"@, 10, -10, -1);
    lemma_no_match(t, "<|tool_call|>"@, 1, -1, -1);
    lemma_no_match(t, "<|\"|>"@, 1, -1, -1);
    lemma_no_match(t, "<|\\\"|"@, 1, -1, -1);
    lemma_no_match(t, "<|\\\""@, 1, -1, -1);
    lemma_no_match(t, "<|\""@, 1, -1, -1);
    lemma_no_match(t, "\"|>"@, 1, -1, -1);
    lemma_no_match(t, "<|\\"@, 1, -1, -1);
    lemma_no_match(t, "<|"@, 1, -1, -1);
    assert forall|j: int| 0 <= j < 10 implies !has_text(t, (#[trigger] rules[j]).0) by {
        assert(j == 0 || j == 1 || j == 2 || j == 3 || j == 4 || j == 5 || j == 6 || j == 7 || j == 8 || j == 9);
    }
    assert(!""@.contains('|'));
    lemma_token(x, y, rules, 10, 0);
}

/// What becomes of this token between texts without bars.
proof fn lemma_argument_token_11(x: Seq<char>, y: Seq<char>)
    requires
        !x.contains('|'),
        !y.contains('|'),
        y.len() > 0 ==> y[0] != '>',
    ensures
        rewritten(x + "\"|"@ + y, argument_rules()) == x + "\""@ + y,
{
    lemma_tokens();
    lemma_rules_have_bars();
    let rules = argument_rules();
    let t = x + "\"|"@ + y;
    assert forall|k: int| 0 <= k < t.len() && #[trigger] t[k] == '|' implies k == x.len() + 1 by {
        if k < x.len() {
            assert(x.contains(x[k]));
        } else if k >= x.len() + 2 {
            assert(y.contains(y[k - x.len() - 2]));
        }
    }
    if y.len() > 0 {
        assert(y.contains(y[0]));
    }
    lemma_no_match(t, "<|tool_call>"@, 1, -1, -1);
    lemma_no_match(t, "<tool_call|>"@, 10, -10, -1);
    lemma_no_match(t, "<|tool_call|>"@, 1, -1, -1);
    lemma_no_match(t, "<|\"|>"@, 1, -1, -1);
    lemma_no_match(t, "<|\\\"|"@, 1, -1, -1);
    lemma_no_match(t, "<|\\\""@, 1, -1, -1);
    lemma_no_match(t, "<|\""@, 1, -1, -1);
    lemma_no_match(t, "\"|>"@, 1, -1, 1);
    lemma_no_match(t, "<|\\"@, 1, -1, -1);
    lemma_no_match(t, "<|"@, 1, -1, -1);
    lemma_no_match(t, "|>"@, 0, 0, 1);
    assert forall|j: int| 0 <= j < 11 implies !has_text(t, (#[trigger] rules[j]).0) by {
        assert(j == 0 || j == 1 || j == 2 || j == 3 || j == 4 || j == 5 || j == 6 || j == 7 || j == 8 || j == 9 || j == 10);
    }
    assert(!"\""@.contains('|'));
    lemma_token(x, y, rules, 11, 1);
}

/// What becomes of this token between texts without bars.
proof fn lemma_argument_token_12(x: Seq<char>, y: Seq<char>)
    requires
        !x.contains('|'),
        !y.contains('|'),
        x.len() > 0 ==> x.last() != '<' && x.last() != '"' && x.last() != 'l',
    ensures
        rewritten(x + "|\""@ + y, argument_rules()) == x + "\""@ + y,
{
    lemma_tokens();
    lemma_rules_have_bars();
    let rules = argument_rules();
    let t = x + "|\""@ + y;
    assert forall|k: int| 0 <= k < t.len() && #[trigger] t[k] == '|' implies k == x.len() + 0 by {
        if k < x.len() {
            assert(x.contains(x[k]));
        } else if k >= x.len() + 2 {
            assert(y.contains(y[k - x.len() - 2]));
        }
    }
    if y.len() > 0 {
        assert(y.contains(y[0]));
    }
    lemma_no_match(t, "<|tool_call>"@, 1, -1, -1);
    lemma_no_match(t, "<tool_call|>"@, 10, -10, -1);
    lemma_no_match(t, "<|tool_call|>"@, 1, -1, -1);
    lemma_no_match(t, "<|\"|>"@, 1, -1, -1);
    lemma_no_match(t, "<|\\\"|"@, 1, -1, -1);
    lemma_no_match(t, "<|\\\""@, 1, -1, -1);
    lemma_no_match(t, "<|\""@, 1, -1, -1);
    lemma_no_match(t, "\"|>"@, 1, -1, -1);
    lemma_no_match(t, "<|\\"@, 1, -1, -1);
    lemma_no_match(t, "<|"@, 1, -1, -1);
    lemma_no_match(t, "|>"@, 0, 0, 1);
    lemma_no_match(t, "\"|"@, 1, -1, -1);
    assert forall|j: int| 0 <= j < 12 implies !has_text(t, (#[trigger] rules[j]).0) by {
        assert(j == 0 || j == 1 || j == 2 || j == 3 || j == 4 || j == 5 || j == 6 || j == 7 || j == 8 || j == 9 || j == 10 || j == 11);
    }
    assert(!"\""@.contains('|'));
    lemma_token(x, y, rules, 12, 0);
}

/// What becomes of this token between texts without bars.
proof fn lemma_content_token_0(x: Seq<char>, y: Seq<char>)
    requires
        !x.contains('|'),
        !y.contains('|'),
    ensures
        rewritten(x + "<|tool_call>"@ + y, content_rules()) == x + ""@ + y,
{
    lemma_tokens();
    lemma_rules_have_bars();
    let rules = content_rules();
    let t = x + "<|tool_call>"@ + y;
    assert forall|k: int| 0 <= k < t.len() && #[trigger] t[k] == '|' implies k == x.len() + 1 by {
        if k < x.len() {
            assert(x.contains(x[k]));
        } else if k >= x.len() + 12 {
            assert(y.contains(y[k - x.len() - 12]));
        }
    }
    if y.len() > 0 {
        assert(y.contains(y[0]));
    }
    assert(!""@.contains('|'));
    lemma_token(x, y, rules, 0, 1);
}

/// What becomes of this token between texts without bars.
proof fn lemma_content_token_1(x: Seq<char>, y: Seq<char>)
    requires
        !x.contains('|'),
        !y.contains('|'),
    ensures
        rewritten(x + "<tool_call|>"@ + y, content_rules()) == x + ""@ + y,
{
    lemma_tokens();
    lemma_rules_have_bars();
    let rules = content_rules();
    let t = x + "<tool_call|>"@ + y;
    assert forall|k: int| 0 <= k < t.len() && #[trigger] t[k] == '|' implies k == x.len() + 10 by {
        if k < x.len() {
            assert(x.contains(x[k]));
        } else if k >= x.len() + 12 {
            assert(y.contains(y[k - x.len() - 12]));
        }
    }
    if y.len() > 0 {
        assert(y.contains(y[0]));
    }
    lemma_no_match(t, "<|tool_call>"@, 1, -1, -1);
    assert forall|j: int| 0 <= j < 1 implies !has_text(t, (#[trigger] rules[j]).0) by {
        assert(j == 0);
    }
    assert(!""@.contains('|'));
    lemma_token(x, y, rules, 1, 10);
}

/// What becomes of this token between texts without bars.
proof fn lemma_content_token_2(x: Seq<char>, y: Seq<char>)
    requires
        !x.contains('|'),
        !y.contains('|'),
    ensures
        rewritten(x + "<|tool_call|>"@ + y, content_rules()) == x + ""@ + y,
{
    lemma_tokens();
    lemma_rules_have_bars();
    let rules = content_rules();
    let t = x + "<|tool_call|>"@ + y;
    assert forall|k: int| 0 <= k < t.len() && #[trigger] t[k] == '|' implies k == x.len() + 1 || k == x.len() + 11 by {
        if k < x.len() {
            assert(x.contains(x[k]));
        } else if k >= x.len() + 13 {
            assert(y.contains(y[k - x.len() - 13]));
        }
    }
    if y.len() > 0 {
        assert(y.contains(y[0]));
    }
    lemma_no_match(t, "<|tool_call>"@, 1, -1, 10);
    lemma_no_match(t, "<tool_call|>"@, 10, -10, -1);
    assert forall|j: int| 0 <= j < 2 implies !has_text(t, (#[trigger] rules[j]).0) by {
        assert(j == 0 || j == 1);
    }
    assert(!""@.contains('|'));
    lemma_token(x, y, rules, 2, 1);
}

/// What becomes of this token between texts without bars.
proof fn lemma_content_token_3(x: Seq<char>, y: Seq<char>)
    requires
        !x.contains('|'),
        !y.contains('|'),
    ensures
        rewritten(x + "<|\"|>"@ + y, content_rules()) == x + "\""@ + y,
{
    lemma_tokens();
    lemma_rules_have_bars();
    let rules = content_rules();
    let t = x + "<|\"|>"@ + y;
    assert forall|k: int| 0 <= k < t.len() && #[trigger] t[k] == '|' implies k == x.len() + 1 || k == x.len() + 3 by {
        if k < x.len() {
            assert(x.contains(x[k]));
        } else if k >= x.len() + 5 {
            assert(y.contains(y[k - x.len() - 5]));
        }
    }
    if y.len() > 0 {
        assert(y.contains(y[0]));
    }
    lemma_no_match(t, "<|tool_call>"@, 1, -1, 1);
    lemma_no_match(t, "<tool_call|>"@, 10, -10, -1);
    lemma_no_match(t, "<|tool_call|>"@, 1, -1, 1);
    assert forall|j: int| 0 <= j < 3 implies !has_text(t, (#[trigger] rules[j]).0) by {
        assert(j == 0 || j == 1 || j == 2);
    }
    assert(!"\""@.contains('|'));
    lemma_token(x, y, rules, 3, 1);
}

/// What becomes of this token between texts without bars.
proof fn lemma_content_token_4(x: Seq<char>, y: Seq<char>)
    requires
        !x.contains('|'),
        !y.contains('|'),
    ensures
        rewritten(x + "<|\\\""@ + y, content_rules()) == x + "\""@ + y,
{
    lemma_tokens();
    lemma_rules_have_bars();
    let rules = content_rules();
    let t = x + "<|\\\""@ + y;
    assert forall|k: int| 0 <= k < t.len() && #[trigger] t[k] == '|' implies k == x.len() + 1 by {
        if k < x.len() {
            assert(x.contains(x[k]));
        } else if k >= x.len() + 4 {
            assert(y.contains(y[k - x.len() - 4]));
        }
    }
    if y.len() > 0 {
        assert(y.contains(y[0]));
    }
    lemma_no_match(t, "<|tool_call>"@, 1, -1, 1);
    lemma_no_match(t, "<tool_call|>"@, 10, -10, -1);
    lemma_no_match(t, "<|tool_call|>"@, 1, -1, 1);
    lemma_no_match(t, "<|\"|>"@, 1, -1, 1);
    assert forall|j: int| 0 <= j < 4 implies !has_text(t, (#[trigger] rules[j]).0) by {
        assert(j == 0 || j == 1 || j == 2 || j == 3);
    }
    assert(!"\""@.contains('|'));
    lemma_token(x, y, rules, 4, 1);
}

/// What becomes of this token between texts without bars.
proof fn lemma_content_token_5(x: Seq<char>, y: Seq<char>)
    requires
        !x.contains('|'),
        !y.contains('|'),
    ensures
        rewritten(x + "<|\""@ + y, content_rules()) == x + "\""@ + y,
{
    lemma_tokens();
    lemma_rules_have_bars();
    let rules = content_rules();
    let t = x + "<|\""@ + y;
    assert forall|k: int| 0 <= k < t.len() && #[trigger] t[k] == '|' implies k == x.len() + 1 by {
        if k < x.len() {
            assert(x.contains(x[k]));
        } else if k >= x.len() + 3 {
            assert(y.contains(y[k - x.len() - 3]));
        }
    }
    if y.len() > 0 {
        assert(y.contains(y[0]));
    }
    lemma_no_match(t, "<|tool_call>"@, 1, -1, 1);
    lemma_no_match(t, "<tool_call|>"@, 10, -10, -1);
    lemma_no_match(t, "<|tool_call|>"@, 1, -1, 1);
    lemma_no_match(t, "<|\"|>"@, 1, -1, 2);
    lemma_no_match(t, "<|\\\""@, 1, -1, 1);
    assert forall|j: int| 0 <= j < 5 implies !has_text(t, (#[trigger] rules[j]).0) by {
        assert(j == 0 || j == 1 || j == 2 || j == 3 || j == 4);
    }
    assert(!"\""@.contains('|'));
    lemma_token(x, y, rules, 5, 1);
}

/// What becomes of this token between texts without bars.
proof fn lemma_content_token_6(x: Seq<char>, y: Seq<char>)
    requires
        !x.contains('|'),
        !y.contains('|'),
    ensures
        rewritten(x + "\"|>"@ + y, content_rules()) == x + "\""@ + y,
{
    lemma_tokens();
    lemma_rules_have_bars();
    let rules = content_rules();
    let t = x + "\"|>"@ + y;
    assert forall|k: int| 0 <= k < t.len() && #[trigger] t[k] == '|' implies k == x.len() + 1 by {
        if k < x.len() {
            assert(x.contains(x[k]));
        } else if k >= x.len() + 3 {
            assert(y.contains(y[k - x.len() - 3]));
        }
    }
    if y.len() > 0 {
        assert(y.contains(y[0]));
    }
    lemma_no_match(t, "<|tool_call>"@, 1, -1, -1);
    lemma_no_match(t, "<tool_call|>"@, 10, -10, -1);
    lemma_no_match(t, "<|tool_call|>"@, 1, -1, -1);
    lemma_no_match(t, "<|\"|>"@, 1, -1, -1);
    lemma_no_match(t, "<|\\\""@, 1, -1, -1);
    lemma_no_match(t, "<|\""@, 1, -1, -1);
    assert forall|j: int| 0 <= j < 6 implies !has_text(t, (#[trigger] rules[j]).0) by {
        assert(j == 0 || j == 1 || j == 2 || j == 3 || j == 4 || j == 5);
    }
    assert(!"\""@.contains('|'));
    lemma_token(x, y, rules, 6, 1);
}

/// What becomes of every leaked token in arguments: the delimiters of a tool call go,
/// string delimiters and what is left of them become a quote, and stray halves go.
/// The text before and behind a token stays as it is, and so does a text without
/// bars.
pub proof fn law_tokens_stripped(x: Seq<char>, y: Seq<char>)
    requires
        !x.contains('|'),
        !y.contains('|'),
    ensures
        rewritten(x, argument_rules()) == x,
        rewritten(x + "<|tool_call>"@ + y, argument_rules()) == x + y,
        rewritten(x + "<tool_call|>"@ + y, argument_rules()) == x + y,
        rewritten(x + "<|tool_call|>"@ + y, argument_rules()) == x + y,
        rewritten(x + "<|\"|>"@ + y, argument_rules()) == x + seq!['"'] + y,
        rewritten(x + "<|\\\"|"@ + y, argument_rules()) == x + seq!['"'] + y,
        rewritten(x + "<|\\\""@ + y, argument_rules()) == x + seq!['"'] + y,
        rewritten(x + "<|\""@ + y, argument_rules()) == x + seq!['"'] + y,
        rewritten(x + "\"|>"@ + y, argument_rules()) == x + seq!['"'] + y,
        (y.len() > 0 ==> y[0] != '"') ==> rewritten(x + "<|\\"@ + y, argument_rules()) == x + y,
        (y.len() > 0 ==> y[0] != '"' && y[0] != '\\' && y[0] != 't') ==> rewritten(x + "<|"@ + y, argument_rules()) == x + y,
        (x.len() > 0 ==> x.last() != '<' && x.last() != '"' && x.last() != 'l') ==> rewritten(x + "|>"@ + y, argument_rules()) == x + y,
        (y.len() > 0 ==> y[0] != '>') ==> rewritten(x + "\"|"@ + y, argument_rules()) == x + seq!['"'] + y,
        (x.len() > 0 ==> x.last() != '<' && x.last() != '"' && x.last() != 'l') ==> rewritten(x + "|\""@ + y, argument_rules()) == x + seq!['"'] + y,
{
    lemma_tokens();
    lemma_rules_have_bars();
    assert forall|j: int| 0 <= j < argument_rules().len() implies !has_text(
        x,
        (#[trigger] argument_rules()[j]).0,
    ) by {
        let i = choose|i: int|
            0 <= i < argument_rules()[j].0.len() && argument_rules()[j].0[i] == '|';
        lemma_no_bar(x, argument_rules()[j].0, i);
    }
    lemma_rewritten_absent(x, argument_rules());
    assert(x + Seq::<char>::empty() + y =~= x + y);
    lemma_argument_token_0(x, y);
    lemma_argument_token_1(x, y);
    lemma_argument_token_2(x, y);
    lemma_argument_token_3(x, y);
    lemma_argument_token_4(x, y);
    lemma_argument_token_5(x, y);
    lemma_argument_token_6(x, y);
    lemma_argument_token_7(x, y);
    if (y.len() > 0 ==> y[0] != '"') {
        lemma_argument_token_8(x, y);
    }
    if (y.len() > 0 ==> y[0] != '"' && y[0] != '\\' && y[0] != 't') {
        lemma_argument_token_9(x, y);
    }
    if (x.len() > 0 ==> x.last() != '<' && x.last() != '"' && x.last() != 'l') {
        lemma_argument_token_10(x, y);
    }
    if (y.len() > 0 ==> y[0] != '>') {
        lemma_argument_token_11(x, y);
    }
    if (x.len() > 0 ==> x.last() != '<' && x.last() != '"' && x.last() != 'l') {
        lemma_argument_token_12(x, y);
    }
}

/// What becomes of every leaked token in content: the delimiters of a tool call go,
/// and string delimiters become a quote.  The text before and behind a token stays as
/// it is, and so does a text without any of these tokens.
pub proof fn law_content_tokens_stripped(x: Seq<char>, y: Seq<char>, plain: Seq<char>)
    requires
        !x.contains('|'),
        !y.contains('|'),
        !has_text(plain, "<|tool_call>"@),
        !has_text(plain, "<tool_call|>"@),
        !has_text(plain, "<|tool_call|>"@),
        !has_text(plain, "<|\"|>"@),
        !has_text(plain, "<|\\\""@),
        !has_text(plain, "<|\""@),
        !has_text(plain, "\"|>"@),
    ensures
        rewritten(plain, content_rules()) == plain,
        rewritten(x + "<|tool_call>"@ + y, content_rules()) == x + y,
        rewritten(x + "<tool_call|>"@ + y, content_rules()) == x + y,
        rewritten(x + "<|tool_call|>"@ + y, content_rules()) == x + y,
        rewritten(x + "<|\"|>"@ + y, content_rules()) == x + seq!['"'] + y,
        rewritten(x + "<|\\\""@ + y, content_rules()) == x + seq!['"'] + y,
        rewritten(x + "<|\""@ + y, content_rules()) == x + seq!['"'] + y,
        rewritten(x + "\"|>"@ + y, content_rules()) == x + seq!['"'] + y,
{
    lemma_tokens();
    lemma_rewritten_absent(plain, content_rules());
    assert(x + Seq::<char>::empty() + y =~= x + y);
    lemma_content_token_0(x, y);
    lemma_content_token_1(x, y);
    lemma_content_token_2(x, y);
    lemma_content_token_3(x, y);
    lemma_content_token_4(x, y);
    lemma_content_token_5(x, y);
    lemma_content_token_6(x, y);
}

/// A text between two string delimiters becomes a text between two quotes.
pub proof fn law_delimited_text_quoted(x: Seq<char>, text: Seq<char>, y: Seq<char>)
    requires
        !x.contains('|'),
        !text.contains('|'),
        !y.contains('|'),
    ensures
        rewritten(x + "<|\"|>"@ + text + "<|\"|>"@ + y, argument_rules()) == x + seq!['"'] + text
            + seq!['"'] + y,
{
    lemma_tokens();
    lemma_rules_have_bars();
    let rules = argument_rules();
    let d = "<|\"|>"@;
    let q = "\""@;
    let rest = text + d + y;
    let s = x + d + text + d + y;
    let u = x + q + text + q + y;
    let n = x.len() as int;
    let m = n + 5 + text.len();
    assert(s =~= x + d + rest);
    assert forall|k: int| 0 <= k < s.len() && #[trigger] s[k] == '|' implies k == n + 1 || k == n + 3
        || k == m + 1 || k == m + 3 by {
        if k < n {
            assert(x.contains(x[k]));
        } else if n + 5 <= k < m {
            assert(text.contains(text[k - n - 5]));
        } else if k >= m + 5 {
            assert(y.contains(y[k - m - 5]));
        }
    }
    lemma_no_match(s, rules[0].0, 1, 1, 1);
    lemma_no_match(s, rules[1].0, 10, -1, -1);
    lemma_no_match(s, rules[2].0, 1, 1, 1);
    assert forall|j: int| 0 <= j < 3 implies !has_text(s, (#[trigger] rules.take(3)[j]).0) by {
        assert(j == 0 || j == 1 || j == 2);
    }
    lemma_rewritten_absent(s, rules.take(3));
    assert forall|j: int| 0 <= j < x.len() implies !occurs_at(x + d + rest, d, j) by {
        if occurs_at(s, d, j) {
            assert(s.subrange(j, j + 5)[1] == s[j + 1]);
        }
    }
    law_replace_first(x, d, q, rest);
    assert forall|j: int| 0 <= j < text.len() implies !occurs_at(text + d + y, d, j) by {
        if occurs_at(rest, d, j) {
            assert(rest.subrange(j, j + 5)[1] == rest[j + 1]);
            assert(rest[j + 1] == s[n + 5 + j + 1]);
        }
    }
    law_replace_first(text, d, q, y);
    lemma_no_bar(y, d, 1);
    lemma_replace_absent(y, d, q);
    assert(x + q + (text + q + y) =~= u);
    let next = rules.take(4);
    assert(next.drop_last() =~= rules.take(3));
    assert(next.last() == rules[3]);
    assert(rewritten(s, next) == u);
    assert forall|k: int| 0 <= k < u.len() implies #[trigger] u[k] != '|' by {
        if k < n {
            assert(x.contains(x[k]));
        } else if n + 1 <= k < n + 1 + text.len() {
            assert(text.contains(text[k - n - 1]));
        } else if k >= n + 2 + text.len() {
            assert(y.contains(y[k - n - 2 - text.len()]));
        }
    }
    assert(!u.contains('|'));
    assert forall|j: int| 4 <= j < rules.len() implies !has_text(u, (#[trigger] rules[j]).0) by {
        let i = choose|i: int| 0 <= i < rules[j].0.len() && rules[j].0[i] == '|';
        lemma_no_bar(u, rules[j].0, i);
    }
    lemma_later_rules(s, rules, 4, u);
}

} // verus!
