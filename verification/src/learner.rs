//! Conservative single-span word candidates. No model calls or sentence rewriting.
use vstd::prelude::*;
use vstd::string::*;
use crate::devices::contains_text;
use crate::text::{
    char_is_alphabetic, is_alphabetic, is_latin, latin, same_chars, string_of, trimmed,
    trimmed_chars,
};

verus! {

/// Two-character terms (dates, times, negations) that a learned word must not contain.
pub open spec fn is_banned_pair(x: char, y: char) -> bool {
    ||| x == '今' && y == '天'
    ||| x == '明' && y == '天'
    ||| x == '昨' && y == '天'
    ||| x == '后' && y == '天'
    ||| x == '下' && y == '周'
    ||| x == '本' && y == '周'
    ||| x == '下' && y == '月'
    ||| x == '本' && y == '月'
    ||| x == '今' && y == '年'
    ||| x == '明' && y == '年'
    ||| x == '上' && y == '午'
    ||| x == '下' && y == '午'
    ||| x == '晚' && y == '上'
    ||| x == '早' && y == '上'
    ||| x == '之' && y == '前'
    ||| x == '之' && y == '后'
    ||| x == '不' && y == '是'
    ||| x == '不' && y == '要'
    ||| x == '可' && y == '以'
    ||| x == '不' && y == '能'
}

/// Chinese numerals and date/time units that a learned word must not contain.
pub open spec fn is_number_char(c: char) -> bool {
    ||| c == '零' || c == '一' || c == '二' || c == '三' || c == '四' || c == '五'
    ||| c == '六' || c == '七' || c == '八' || c == '九' || c == '十' || c == '百'
    ||| c == '千' || c == '万' || c == '亿' || c == '年' || c == '月' || c == '日'
    ||| c == '点' || c == '分' || c == '秒'
}

/// Whether `w` contains one of the banned two-character terms.
pub open spec fn mentions_banned(w: Seq<char>) -> bool {
    exists|i: int| 0 <= i < w.len() - 1 && #[trigger] is_banned_pair(w[i], w[i + 1])
}

/// Whether `w` contains a numeral or a date/time unit.
pub open spec fn mentions_number(w: Seq<char>) -> bool {
    exists|i: int| 0 <= i < w.len() && #[trigger] is_number_char(w[i])
}

/// A word worth learning: 2 to 12 alphabetic characters, no date, time,
/// negation or number.
pub open spec fn is_word(w: Seq<char>) -> bool {
    &&& 2 <= w.len() <= 12
    &&& forall|i: int| 0 <= i < w.len() ==> #[trigger] is_alphabetic(w[i])
    &&& !mentions_banned(w)
    &&& !mentions_number(w)
}

/// Length of the longest common prefix of `a` and `b`.
pub open spec fn common_prefix_len(a: Seq<char>, b: Seq<char>) -> nat
    decreases a.len(),
{
    if a.len() > 0 && b.len() > 0 && a[0] == b[0] {
        1 + common_prefix_len(a.drop_first(), b.drop_first())
    } else {
        0
    }
}

/// Length of the longest common suffix of `a` and `b`.
pub open spec fn common_suffix_len(a: Seq<char>, b: Seq<char>) -> nat
    decreases a.len(),
{
    if a.len() > 0 && b.len() > 0 && a.last() == b.last() {
        1 + common_suffix_len(a.drop_last(), b.drop_last())
    } else {
        0
    }
}

/// Number of ASCII letters in `s` immediately before position `i`.
pub open spec fn latin_run_before(s: Seq<char>, i: int) -> nat
    decreases i,
{
    if 0 < i <= s.len() && is_latin(s[i - 1]) {
        1 + latin_run_before(s, i - 1)
    } else {
        0
    }
}

/// Number of ASCII letters in `s` from position `i` on.
pub open spec fn latin_run_from(s: Seq<char>, i: int) -> nat
    decreases s.len() - i,
{
    if 0 <= i < s.len() && is_latin(s[i]) {
        1 + latin_run_from(s, i + 1)
    } else {
        0
    }
}

/// The changed span between `a` and `b`: `(start, end_a, end_b)`, so that
/// `a[start..end_a]` was replaced by `b[start..end_b]`. The span is what lies
/// between the common prefix and the common suffix (taken after the prefix);
/// when it starts at an ASCII letter it grows to the whole Latin token.
pub open spec fn edit_span(a: Seq<char>, b: Seq<char>) -> (int, int, int) {
    let p = common_prefix_len(a, b) as int;
    let q = common_suffix_len(a.skip(p), b.skip(p)) as int;
    let ea = a.len() - q;
    let eb = b.len() - q;
    if (p < a.len() && is_latin(a[p])) || (p < b.len() && is_latin(b[p])) {
        (p - latin_run_before(a, p), ea + latin_run_from(a, ea), eb + latin_run_from(b, eb))
    } else {
        (p, ea, eb)
    }
}

/// The word correction that turned `before` into `after`, if the change is a
/// single word replaced by another word.
pub open spec fn candidate_of(before: Seq<char>, after: Seq<char>) -> Option<(Seq<char>, Seq<char>)> {
    let a = trimmed(before);
    let b = trimmed(after);
    let span = edit_span(a, b);
    let source = a.subrange(span.0, span.1);
    let target = b.subrange(span.0, span.2);
    if source != target && is_word(source) && is_word(target) {
        Some((source, target))
    } else {
        None
    }
}

/// The text of an optional pair of strings.
pub open spec fn pair_view(r: Option<(String, String)>) -> Option<(Seq<char>, Seq<char>)> {
    match r {
        Some((s, t)) => Some((s@, t@)),
        None => None,
    }
}

/// The text of each pair of strings.
pub open spec fn pairs_view(pairs: Seq<(String, String)>) -> Seq<(Seq<char>, Seq<char>)> {
    pairs.map_values(|p: (String, String)| (p.0@, p.1@))
}

/// How many of the latest corrections (newest first) agree on `source → target`
/// before one disagrees: a different target for the same source, or the
/// reverse correction, ends the run; unrelated corrections are skipped.
pub open spec fn streak_of(
    source: Seq<char>,
    target: Seq<char>,
    pairs: Seq<(Seq<char>, Seq<char>)>,
) -> nat
    decreases pairs.len(),
{
    if pairs.len() == 0 {
        0
    } else {
        let from = pairs[0].0;
        let to = pairs[0].1;
        if from == source {
            if to != target {
                0
            } else {
                1 + streak_of(source, target, pairs.drop_first())
            }
        } else if from == target && to == source {
            0
        } else {
            streak_of(source, target, pairs.drop_first())
        }
    }
}

proof fn lemma_common_prefix(a: Seq<char>, b: Seq<char>)
    ensures
        common_prefix_len(a, b) <= a.len(),
        common_prefix_len(a, b) <= b.len(),
        forall|i: int| 0 <= i < common_prefix_len(a, b) ==> a[i] == b[i],
        common_prefix_len(a, b) == common_prefix_len(b, a),
    decreases a.len(),
{
    if a.len() > 0 && b.len() > 0 && a[0] == b[0] {
        lemma_common_prefix(a.drop_first(), b.drop_first());
        assert forall|i: int| 0 <= i < common_prefix_len(a, b) implies a[i] == b[i] by {
            if i > 0 {
                assert(a[i] == a.drop_first()[i - 1]);
                assert(b[i] == b.drop_first()[i - 1]);
            }
        }
    }
}

proof fn lemma_common_suffix(a: Seq<char>, b: Seq<char>)
    ensures
        common_suffix_len(a, b) <= a.len(),
        common_suffix_len(a, b) <= b.len(),
        common_suffix_len(a, b) == common_suffix_len(b, a),
    decreases a.len(),
{
    if a.len() > 0 && b.len() > 0 && a.last() == b.last() {
        lemma_common_suffix(a.drop_last(), b.drop_last());
    }
}

proof fn lemma_latin_run_before(a: Seq<char>, b: Seq<char>, i: int)
    requires
        0 <= i <= a.len(),
        i <= b.len(),
        forall|k: int| 0 <= k < i ==> a[k] == b[k],
    ensures
        latin_run_before(a, i) == latin_run_before(b, i),
        latin_run_before(a, i) <= i,
    decreases i,
{
    if i > 0 {
        lemma_latin_run_before(a, b, i - 1);
    }
}

proof fn lemma_latin_run_from(s: Seq<char>, i: int)
    requires
        0 <= i <= s.len(),
    ensures
        i + latin_run_from(s, i) <= s.len(),
    decreases s.len() - i,
{
    if i < s.len() && is_latin(s[i]) {
        lemma_latin_run_from(s, i + 1);
    }
}

/// The span of [`edit_span`] lies inside both texts.
pub proof fn lemma_edit_span_bounds(a: Seq<char>, b: Seq<char>)
    ensures
        0 <= edit_span(a, b).0 <= edit_span(a, b).1 <= a.len(),
        edit_span(a, b).0 <= edit_span(a, b).2 <= b.len(),
{
    let p = common_prefix_len(a, b) as int;
    lemma_common_prefix(a, b);
    lemma_common_suffix(a.skip(p), b.skip(p));
    let q = common_suffix_len(a.skip(p), b.skip(p)) as int;
    lemma_latin_run_before(a, b, p);
    lemma_latin_run_from(a, a.len() - q);
    lemma_latin_run_from(b, b.len() - q);
}

/// `w` contains none of the dates, times and negations that are never
/// learned: 今天 明天 昨天 后天 下周 本周 下月 本月 今年 明年 上午 下午 晚上
/// 早上 之前 之后 不是 不要 可以 不能.
pub open spec fn avoids_excluded_terms(w: Seq<char>) -> bool {
    &&& !contains_text(w, seq!['今', '天'])
    &&& !contains_text(w, seq!['明', '天'])
    &&& !contains_text(w, seq!['昨', '天'])
    &&& !contains_text(w, seq!['后', '天'])
    &&& !contains_text(w, seq!['下', '周'])
    &&& !contains_text(w, seq!['本', '周'])
    &&& !contains_text(w, seq!['下', '月'])
    &&& !contains_text(w, seq!['本', '月'])
    &&& !contains_text(w, seq!['今', '年'])
    &&& !contains_text(w, seq!['明', '年'])
    &&& !contains_text(w, seq!['上', '午'])
    &&& !contains_text(w, seq!['下', '午'])
    &&& !contains_text(w, seq!['晚', '上'])
    &&& !contains_text(w, seq!['早', '上'])
    &&& !contains_text(w, seq!['之', '前'])
    &&& !contains_text(w, seq!['之', '后'])
    &&& !contains_text(w, seq!['不', '是'])
    &&& !contains_text(w, seq!['不', '要'])
    &&& !contains_text(w, seq!['可', '以'])
    &&& !contains_text(w, seq!['不', '能'])
}

/// A word worth learning contains no banned two-character term.
proof fn lemma_word_avoids_pair(w: Seq<char>, a: char, b: char)
    requires
        is_word(w),
        is_banned_pair(a, b),
    ensures
        !contains_text(w, seq![a, b]),
{
    if contains_text(w, seq![a, b]) {
        let i = choose|i: int| 0 <= i && i + 2 <= w.len() && #[trigger] w.subrange(i, i + 2) == seq![a, b];
        assert(w.subrange(i, i + 2)[0] == w[i]);
        assert(w.subrange(i, i + 2)[1] == w[i + 1]);
        assert(is_banned_pair(w[i], w[i + 1]));
    }
}

/// A word worth learning avoids every excluded term.
proof fn lemma_word_avoids_excluded_terms(w: Seq<char>)
    requires
        is_word(w),
    ensures
        avoids_excluded_terms(w),
{
    lemma_word_avoids_pair(w, '今', '天');
    lemma_word_avoids_pair(w, '明', '天');
    lemma_word_avoids_pair(w, '昨', '天');
    lemma_word_avoids_pair(w, '后', '天');
    lemma_word_avoids_pair(w, '下', '周');
    lemma_word_avoids_pair(w, '本', '周');
    lemma_word_avoids_pair(w, '下', '月');
    lemma_word_avoids_pair(w, '本', '月');
    lemma_word_avoids_pair(w, '今', '年');
    lemma_word_avoids_pair(w, '明', '年');
    lemma_word_avoids_pair(w, '上', '午');
    lemma_word_avoids_pair(w, '下', '午');
    lemma_word_avoids_pair(w, '晚', '上');
    lemma_word_avoids_pair(w, '早', '上');
    lemma_word_avoids_pair(w, '之', '前');
    lemma_word_avoids_pair(w, '之', '后');
    lemma_word_avoids_pair(w, '不', '是');
    lemma_word_avoids_pair(w, '不', '要');
    lemma_word_avoids_pair(w, '可', '以');
    lemma_word_avoids_pair(w, '不', '能');
}

/// No correction ever learns a date, a time or a negation: neither word of a
/// candidate contains any of the excluded terms.
pub proof fn lemma_candidate_avoids_excluded_terms(before: Seq<char>, after: Seq<char>)
    ensures
        candidate_of(before, after) matches Some((source, target)) ==> avoids_excluded_terms(source)
            && avoids_excluded_terms(target),
{
    if let Some((source, target)) = candidate_of(before, after) {
        lemma_word_avoids_excluded_terms(source);
        lemma_word_avoids_excluded_terms(target);
    }
}

/// Text that did not change yields no correction.
pub proof fn lemma_candidate_needs_change(text: Seq<char>)
    ensures
        candidate_of(text, text) is None,
{
}

/// The reverse edit yields the reverse correction: if `before → after`
/// teaches `source → target`, then `after → before` teaches `target → source`.
pub proof fn lemma_candidate_reverse(before: Seq<char>, after: Seq<char>)
    ensures
        candidate_of(after, before) == match candidate_of(before, after) {
            Some((source, target)) => Some((target, source)),
            None => None,
        },
{
    let a = trimmed(before);
    let b = trimmed(after);
    lemma_common_prefix(a, b);
    let p = common_prefix_len(a, b) as int;
    lemma_common_suffix(a.skip(p), b.skip(p));
    lemma_latin_run_before(a, b, p);
    assert(edit_span(b, a) == (edit_span(a, b).0, edit_span(a, b).2, edit_span(a, b).1));
}

/// A correction to the same target extends the streak by one.
pub proof fn lemma_streak_agreeing(
    source: Seq<char>,
    target: Seq<char>,
    rest: Seq<(Seq<char>, Seq<char>)>,
)
    ensures
        streak_of(source, target, seq![(source, target)] + rest) == 1 + streak_of(source, target, rest),
{
    assert((seq![(source, target)] + rest).drop_first() =~= rest);
}

/// The latest correction of the same source to a different target ends the streak.
pub proof fn lemma_streak_conflict_breaks(
    source: Seq<char>,
    target: Seq<char>,
    other: Seq<char>,
    rest: Seq<(Seq<char>, Seq<char>)>,
)
    requires
        other != target,
    ensures
        streak_of(source, target, seq![(source, other)] + rest) == 0,
{
}

/// The reverse correction ends the streak.
pub proof fn lemma_streak_reverse_breaks(
    source: Seq<char>,
    target: Seq<char>,
    rest: Seq<(Seq<char>, Seq<char>)>,
)
    requires
        source != target,
    ensures
        streak_of(source, target, seq![(target, source)] + rest) == 0,
{
}

/// Corrections of other words do not affect the streak.
pub proof fn lemma_streak_skips_unrelated(
    source: Seq<char>,
    target: Seq<char>,
    from: Seq<char>,
    to: Seq<char>,
    rest: Seq<(Seq<char>, Seq<char>)>,
)
    requires
        from != source,
        !(from == target && to == source),
    ensures
        streak_of(source, target, seq![(from, to)] + rest) == streak_of(source, target, rest),
{
    assert((seq![(from, to)] + rest).drop_first() =~= rest);
}

/// Corrections of other words do not affect the streak, wherever they stand
/// among the finished sessions.
pub proof fn lemma_streak_skips_unrelated_anywhere(
    source: Seq<char>,
    target: Seq<char>,
    from: Seq<char>,
    to: Seq<char>,
    pairs: Seq<(Seq<char>, Seq<char>)>,
    i: int,
)
    requires
        from != source,
        !(from == target && to == source),
        0 <= i <= pairs.len(),
    ensures
        streak_of(source, target, pairs.insert(i, (from, to))) == streak_of(source, target, pairs),
    decreases i,
{
    if i == 0 {
        assert(pairs.insert(0, (from, to)) =~= seq![(from, to)] + pairs);
        lemma_streak_skips_unrelated(source, target, from, to, pairs);
    } else {
        let ins = pairs.insert(i, (from, to));
        assert(ins.drop_first() =~= pairs.drop_first().insert(i - 1, (from, to)));
        assert(ins[0] == pairs[0]);
        lemma_streak_skips_unrelated_anywhere(source, target, from, to, pairs.drop_first(), i - 1);
    }
}

/// A streak never counts more corrections than there are.
pub proof fn lemma_streak_bound(
    source: Seq<char>,
    target: Seq<char>,
    pairs: Seq<(Seq<char>, Seq<char>)>,
)
    ensures
        streak_of(source, target, pairs) <= pairs.len(),
    decreases pairs.len(),
{
    if pairs.len() > 0 {
        lemma_streak_bound(source, target, pairs.drop_first());
    }
}

proof fn lemma_latin_run_before_maximal(s: Seq<char>, i: int)
    requires
        0 <= i <= s.len(),
    ensures
        latin_run_before(s, i) <= i,
        i - latin_run_before(s, i) == 0 || !is_latin(s[i - latin_run_before(s, i) - 1]),
        forall|k: int| i - latin_run_before(s, i) <= k < i ==> is_latin(#[trigger] s[k]),
    decreases i,
{
    if i > 0 && is_latin(s[i - 1]) {
        lemma_latin_run_before_maximal(s, i - 1);
    }
}

proof fn lemma_latin_run_from_maximal(s: Seq<char>, i: int)
    requires
        0 <= i <= s.len(),
    ensures
        i + latin_run_from(s, i) <= s.len(),
        i + latin_run_from(s, i) == s.len() || !is_latin(s[i + latin_run_from(s, i)]),
        forall|k: int| i <= k < i + latin_run_from(s, i) ==> is_latin(#[trigger] s[k]),
    decreases s.len() - i,
{
    if i < s.len() && is_latin(s[i]) {
        lemma_latin_run_from_maximal(s, i + 1);
    }
}

/// Latin words are kept whole: when the change starts at an ASCII letter, the
/// learned span is bounded by non-letters (or the ends of the text) on both
/// sides, in the text before and in the text after the edit.
pub proof fn lemma_latin_words_whole(a: Seq<char>, b: Seq<char>)
    ensures
        ({
            let p = common_prefix_len(a, b) as int;
            let (start, end_a, end_b) = edit_span(a, b);
            (p < a.len() && is_latin(a[p])) || (p < b.len() && is_latin(b[p])) ==> {
                &&& start == 0 || !is_latin(a[start - 1])
                &&& end_a == a.len() || !is_latin(a[end_a])
                &&& end_b == b.len() || !is_latin(b[end_b])
            }
        }),
{
    let p = common_prefix_len(a, b) as int;
    lemma_common_prefix(a, b);
    lemma_common_suffix(a.skip(p), b.skip(p));
    let q = common_suffix_len(a.skip(p), b.skip(p)) as int;
    lemma_latin_run_before_maximal(a, p);
    lemma_latin_run_from_maximal(a, a.len() - q);
    lemma_latin_run_from_maximal(b, b.len() - q);
}

/// `common_prefix_len(a@, b@)`.
fn common_prefix(a: &Vec<char>, b: &Vec<char>) -> (r: usize)
    ensures
        r == common_prefix_len(a@, b@),
{
    let mut i: usize = 0;
    assert(a@.skip(0) =~= a@);
    assert(b@.skip(0) =~= b@);
    while i < a.len() && i < b.len() && a[i] == b[i]
        invariant
            i <= a.len(),
            i <= b.len(),
            common_prefix_len(a@, b@) == i + common_prefix_len(a@.skip(i as int), b@.skip(i as int)),
        decreases a.len() - i,
    {
        assert(a@.skip(i as int).drop_first() =~= a@.skip(i + 1));
        assert(b@.skip(i as int).drop_first() =~= b@.skip(i + 1));
        i += 1;
    }
    i
}

/// `common_suffix_len(a@.skip(p), b@.skip(p))`.
fn common_suffix_after(a: &Vec<char>, b: &Vec<char>, p: usize) -> (r: usize)
    requires
        p <= a.len(),
        p <= b.len(),
    ensures
        r == common_suffix_len(a@.skip(p as int), b@.skip(p as int)),
        r + p <= a.len(),
        r + p <= b.len(),
{
    let ghost x = a@.skip(p as int);
    let ghost y = b@.skip(p as int);
    let la = a.len();
    let lb = b.len();
    let mut j: usize = 0;
    assert(x.take(x.len() as int) =~= x);
    assert(y.take(y.len() as int) =~= y);
    while j < la - p && j < lb - p && a[la - 1 - j] == b[lb - 1 - j]
        invariant
            la == a.len(),
            lb == b.len(),
            p <= la,
            p <= lb,
            x == a@.skip(p as int),
            y == b@.skip(p as int),
            j <= la - p,
            j <= lb - p,
            common_suffix_len(x, y) == j + common_suffix_len(
                x.take(x.len() - j),
                y.take(y.len() - j),
            ),
        decreases la - j,
    {
        assert(x.take(x.len() - j).drop_last() =~= x.take(x.len() - j - 1));
        assert(y.take(y.len() - j).drop_last() =~= y.take(y.len() - j - 1));
        j += 1;
    }
    j
}

/// The characters `v[from..to]`.
fn sub_chars(v: &Vec<char>, from: usize, to: usize) -> (r: Vec<char>)
    requires
        from <= to <= v.len(),
    ensures
        r@ == v@.subrange(from as int, to as int),
{
    let mut r: Vec<char> = Vec::new();
    let mut i = from;
    while i < to
        invariant
            from <= i <= to <= v.len(),
            r@ == v@.subrange(from as int, i as int),
        decreases to - i,
    {
        r.push(v[i]);
        assert(v@.subrange(from as int, i + 1) =~= v@.subrange(from as int, i as int).push(v@[i as int]));
        i += 1;
    }
    r
}

/// Executable form of [`is_banned_pair`].
fn banned_pair(x: char, y: char) -> (r: bool)
    ensures
        r == is_banned_pair(x, y),
{
    match (x, y) {
        ('今', '天') | ('明', '天') | ('昨', '天') | ('后', '天') | ('下', '周') | ('本', '周')
        | ('下', '月') | ('本', '月') | ('今', '年') | ('明', '年') | ('上', '午') | ('下', '午')
        | ('晚', '上') | ('早', '上') | ('之', '前') | ('之', '后') | ('不', '是') | ('不', '要')
        | ('可', '以') | ('不', '能') => true,
        _ => false,
    }
}

/// Executable form of [`is_number_char`].
fn number_char(c: char) -> (r: bool)
    ensures
        r == is_number_char(c),
{
    match c {
        '零' | '一' | '二' | '三' | '四' | '五' | '六' | '七' | '八' | '九' | '十' | '百' | '千'
        | '万' | '亿' | '年' | '月' | '日' | '点' | '分' | '秒' => true,
        _ => false,
    }
}

/// Whether `w` is a word worth learning.
fn word_ok(w: &Vec<char>) -> (r: bool)
    ensures
        r == is_word(w@),
{
    let n = w.len();
    if n < 2 || n > 12 {
        return false;
    }
    let mut i: usize = 0;
    while i < n
        invariant
            n == w.len(),
            i <= n,
            forall|k: int| 0 <= k < i ==> #[trigger] is_alphabetic(w@[k]),
            !(exists|k: int| 0 <= k < i && #[trigger] is_number_char(w@[k])),
            !(exists|k: int| 0 <= k < i && k < n - 1 && #[trigger] is_banned_pair(w@[k], w@[k + 1])),
        decreases n - i,
    {
        if !char_is_alphabetic(w[i]) {
            return false;
        }
        if number_char(w[i]) {
            return false;
        }
        if i + 1 < n && banned_pair(w[i], w[i + 1]) {
            return false;
        }
        i += 1;
    }
    true
}

/// The word correction that turned `before` into `after`, if any: the single
/// changed span (Latin tokens kept whole), provided both sides are words.
pub fn candidate(before: &str, after: &str) -> (r: Option<(String, String)>)
    ensures
        pair_view(r) == candidate_of(before@, after@),
{
    let a = trimmed_chars(before);
    let b = trimmed_chars(after);
    let ghost sa = a@;
    let ghost sb = b@;
    let prefix = common_prefix(&a, &b);
    proof {
        lemma_common_prefix(sa, sb);
        lemma_edit_span_bounds(sa, sb);
    }
    let suffix = common_suffix_after(&a, &b, prefix);
    let mut start = prefix;
    let mut end_a = a.len() - suffix;
    let mut end_b = b.len() - suffix;
    let ghost ea0 = end_a as int;
    let ghost eb0 = end_b as int;
    if (start < a.len() && latin(a[start])) || (start < b.len() && latin(b[start])) {
        while start > 0 && latin(a[start - 1])
            invariant
                start <= prefix <= a.len(),
                latin_run_before(sa, prefix as int) == (prefix - start) + latin_run_before(sa, start as int),
                sa == a@,
            decreases start,
        {
            start -= 1;
        }
        while end_a < a.len() && latin(a[end_a])
            invariant
                ea0 <= end_a <= a.len(),
                latin_run_from(sa, ea0) == (end_a - ea0) + latin_run_from(sa, end_a as int),
                sa == a@,
            decreases a.len() - end_a,
        {
            end_a += 1;
        }
        while end_b < b.len() && latin(b[end_b])
            invariant
                eb0 <= end_b <= b.len(),
                latin_run_from(sb, eb0) == (end_b - eb0) + latin_run_from(sb, end_b as int),
                sb == b@,
            decreases b.len() - end_b,
        {
            end_b += 1;
        }
    }
    assert(edit_span(sa, sb) == (start as int, end_a as int, end_b as int));
    let source = sub_chars(&a, start, end_a);
    let target = sub_chars(&b, start, end_b);
    if !same_chars(&source, &target) && word_ok(&source) && word_ok(&target) {
        Some((string_of(&source, 0, source.len()), string_of(&target, 0, target.len())))
    } else {
        None
    }
}

/// How many of the latest corrections in `pairs` (newest first) agree on
/// `source → target`; a different target for the same source or a reverse
/// correction breaks the streak.
pub fn streak(source: &str, target: &str, pairs: &[(String, String)]) -> (r: usize)
    ensures
        r == streak_of(source@, target@, pairs_view(pairs@)),
{
    let src = String::from_str(source);
    let tgt = String::from_str(target);
    let ghost all = pairs_view(pairs@);
    let mut count: usize = 0;
    let mut i: usize = 0;
    assert(all.skip(0) =~= all);
    while i < pairs.len()
        invariant
            i <= pairs.len(),
            count <= i,
            all == pairs_view(pairs@),
            src@ == source@,
            tgt@ == target@,
            streak_of(source@, target@, all) == count + streak_of(source@, target@, all.skip(i as int)),
        decreases pairs.len() - i,
    {
        let ghost rest = all.skip(i as int);
        assert(rest[0] == (pairs@[i as int].0@, pairs@[i as int].1@));
        assert(rest.drop_first() =~= all.skip(i + 1));
        let (from, to) = &pairs[i];
        if *from == src {
            if *to != tgt {
                return count;
            }
            count += 1;
        } else if *from == tgt && *to == src {
            return count;
        }
        i += 1;
    }
    count
}

} // verus!
