//! Ordered-regex highlighting: every rule's matches over a line are collected,
//! sorted by start position (stable), and swept left to right into styled and
//! unstyled segments. Overlapping matches of different rules are both emitted
//! in start order, exactly as collected — overlap is not merged or resolved,
//! so segments partition the line only when rule matches do not overlap.

use vstd::prelude::*;
use vstd::string::StrSliceExecFns;

verus! {

#[verifier::external_type_specification]
#[verifier::external_body]
pub struct ExRegex(regex::Regex);

#[verifier::external_type_specification]
#[verifier::external_body]
pub struct ExRegexError(regex::Error);

/// A display style for a piece of a log line.
#[derive(Clone, Copy, PartialEq, Eq, Structural, Debug)]
pub enum StyleKind {
    Plain,
    Green,
    Yellow,
    Red,
    Cyan,
    Blue,
    Magenta,
    White,
}

/// The pattern could not be compiled.
#[derive(Clone, Copy, PartialEq, Eq, Structural, Debug)]
pub struct PatternError;

/// The matches of a pattern over a line: (start, end) offsets in characters,
/// in increasing position order, non-overlapping.
pub uninterp spec fn regex_find(pattern: Seq<char>, line: Seq<char>) -> Seq<(int, int)>;

/// Whether the regex engine accepts a pattern: the outcome of compiling it,
/// which depends on the pattern text alone.
pub uninterp spec fn regex_compiles(pattern: Seq<char>) -> bool;

/// One compiled pattern with its display style.
pub(crate) struct MatchRule {
    regex: regex::Regex,
    pattern: String,
    style: StyleKind,
}

impl MatchRule {
    /// The pattern this rule was compiled from.
    pub closed spec fn pattern_spec(&self) -> Seq<char> {
        self.pattern@
    }

    /// The style this rule paints its matches with.
    pub closed spec fn style_spec(&self) -> StyleKind {
        self.style
    }

    /// Relies on regex::Regex::new: compiles the pattern or reports a syntax
    /// error; whether it compiles depends on the pattern text alone. The
    /// compiled regex is kept beside its pattern text.
    #[verifier::external_body]
    pub(crate) fn new(pattern: &str, style: StyleKind) -> (r: Result<MatchRule, regex::Error>)
        ensures
            r is Ok <==> regex_compiles(pattern@),
            r is Ok ==> r.unwrap().pattern_spec() == pattern@ && r.unwrap().style_spec() == style,
    {
        match regex::Regex::new(pattern) {
            Ok(regex) => Ok(MatchRule { regex, pattern: pattern.to_string(), style }),
            Err(e) => Err(e),
        }
    }
}

/// Relies on regex::Regex::find_iter: yields the successive non-overlapping
/// matches of the pattern, leftmost first, with byte offsets on character
/// boundaries, converted here to character offsets. Every `MatchRule` holds
/// the regex that `MatchRule::new` compiled from its pattern, so the matches
/// depend on the pattern and the line alone.
#[verifier::external_body]
fn find_in(rule: &MatchRule, line: &str) -> (r: Vec<(usize, usize)>)
    ensures
        r@.map_values(|m: (usize, usize)| (m.0 as int, m.1 as int)) == regex_find(
            rule.pattern_spec(),
            line@,
        ),
        forall|i: int| 0 <= i < r@.len() ==> (#[trigger] r@[i]).0 <= r@[i].1 <= line@.len(),
        forall|i: int| 0 <= i < r@.len() - 1 ==> (#[trigger] r@[i]).1 <= r@[i + 1].0,
{
    let mut out: Vec<(usize, usize)> = Vec::new();
    for m in rule.regex.find_iter(line) {
        let s = line[..m.start()].chars().count();
        let e = line[..m.end()].chars().count();
        out.push((s, e));
    }
    out
}

/// One styled piece of a formatted line.
#[derive(Clone, PartialEq, Eq, Debug)]
pub struct Segment {
    pub text: String,
    pub style: StyleKind,
}

/// The view of one segment: its characters and its style.
pub open spec fn seg_view(s: Segment) -> (Seq<char>, StyleKind) {
    (s.text@, s.style)
}

/// The views of a sequence of segments.
pub open spec fn segs_view(v: Seq<Segment>) -> Seq<(Seq<char>, StyleKind)> {
    v.map_values(|s: Segment| seg_view(s))
}

/// The views of collected matches: offsets widened to `int`.
pub open spec fn match_views(v: Seq<(usize, usize, StyleKind)>) -> Seq<(int, int, StyleKind)> {
    v.map_values(|m: (usize, usize, StyleKind)| (m.0 as int, m.1 as int, m.2))
}

pub broadcast proof fn lemma_segs_view_index(v: Seq<Segment>, i: int)
    requires
        0 <= i < v.len(),
    ensures
        #[trigger] segs_view(v)[i] == seg_view(v[i]),
{
}

pub broadcast proof fn lemma_match_views_index(v: Seq<(usize, usize, StyleKind)>, i: int)
    requires
        0 <= i < v.len(),
    ensures
        #[trigger] match_views(v)[i] == (v[i].0 as int, v[i].1 as int, v[i].2),
{
}

proof fn lemma_segs_view_push(v: Seq<Segment>, s: Segment)
    ensures
        segs_view(v.push(s)) == segs_view(v).push(seg_view(s)),
{
    assert forall|i: int|
        0 <= i < v.push(s).len() implies segs_view(v.push(s))[i] == segs_view(v).push(
        seg_view(s),
    )[i] by {
        lemma_segs_view_index(v.push(s), i);
        if i < v.len() {
            lemma_segs_view_index(v, i);
        }
    };
    assert(segs_view(v.push(s)) =~= segs_view(v).push(seg_view(s)));
}

proof fn lemma_match_views_push(v: Seq<(usize, usize, StyleKind)>, m: (usize, usize, StyleKind))
    ensures
        match_views(v.push(m)) == match_views(v).push((m.0 as int, m.1 as int, m.2)),
{
    assert forall|i: int|
        0 <= i < v.push(m).len() implies match_views(v.push(m))[i] == match_views(v).push(
        (m.0 as int, m.1 as int, m.2),
    )[i] by {
        lemma_match_views_index(v.push(m), i);
        if i < v.len() {
            lemma_match_views_index(v, i);
        }
    };
    assert(match_views(v.push(m)) =~= match_views(v).push((m.0 as int, m.1 as int, m.2)));
}

/// The matches of one rule, tagged with the rule's style.
pub open spec fn tag_matches(ms: Seq<(int, int)>, style: StyleKind) -> Seq<(int, int, StyleKind)> {
    ms.map_values(|m: (int, int)| (m.0, m.1, style))
}

/// All rules' matches over a line, rule by rule in rule order.
pub open spec fn all_matches(
    rules: Seq<(Seq<char>, StyleKind)>,
    line: Seq<char>,
) -> Seq<(int, int, StyleKind)>
    decreases rules.len(),
{
    if rules.len() == 0 {
        seq![]
    } else {
        tag_matches(regex_find(rules[0].0, line), rules[0].1) + all_matches(rules.skip(1), line)
    }
}

/// Insert a match into a start-sorted list, after every match whose start is
/// not greater — a stable insertion.
pub open spec fn insert_by_start(
    m: (int, int, StyleKind),
    s: Seq<(int, int, StyleKind)>,
) -> Seq<(int, int, StyleKind)>
    decreases s.len(),
{
    if s.len() == 0 {
        seq![m]
    } else if s[0].0 <= m.0 {
        seq![s[0]] + insert_by_start(m, s.skip(1))
    } else {
        seq![m] + s
    }
}

/// Stable sort by match start: matches with equal starts keep collection
/// order.
pub open spec fn sort_by_start(ms: Seq<(int, int, StyleKind)>) -> Seq<(int, int, StyleKind)>
    decreases ms.len(),
{
    if ms.len() == 0 {
        seq![]
    } else {
        insert_by_start(ms.last(), sort_by_start(ms.drop_last()))
    }
}

/// The left-to-right sweep over start-sorted matches: an unstyled segment for
/// each gap, a styled segment for each match, and an unstyled trailing
/// segment for what is left after the last match.
pub open spec fn sweep(
    line: Seq<char>,
    ms: Seq<(int, int, StyleKind)>,
    from: int,
) -> Seq<(Seq<char>, StyleKind)>
    decreases ms.len(),
{
    if ms.len() == 0 {
        if from < line.len() {
            seq![(line.subrange(from, line.len() as int), StyleKind::Plain)]
        } else {
            seq![]
        }
    } else {
        let m = ms[0];
        let gap: Seq<(Seq<char>, StyleKind)> = if m.0 > from {
            seq![(line.subrange(from, m.0), StyleKind::Plain)]
        } else {
            seq![]
        };
        gap + seq![(line.subrange(m.0, m.1), m.2)] + sweep(line, ms.skip(1), m.1)
    }
}

/// What formatting a line with the given rules produces.
pub open spec fn format_spec(
    rules: Seq<(Seq<char>, StyleKind)>,
    line: Seq<char>,
) -> Seq<(Seq<char>, StyleKind)> {
    sweep(line, sort_by_start(all_matches(rules, line)), 0)
}

/// The ordered rule list: pattern text and style of each rule.
pub struct LogFormatter {
    rules: Vec<MatchRule>,
}

impl View for LogFormatter {
    type V = Seq<(Seq<char>, StyleKind)>;

    closed spec fn view(&self) -> Seq<(Seq<char>, StyleKind)> {
        self.rules@.map_values(|r: MatchRule| (r.pattern_spec(), r.style_spec()))
    }
}

broadcast proof fn lemma_formatter_view_index(f: &LogFormatter, i: int)
    requires
        0 <= i < f.rules@.len(),
    ensures
        #[trigger] f@[i] == (f.rules@[i].pattern_spec(), f.rules@[i].style_spec()),
{
}

impl LogFormatter {
    pub fn new() -> (r: LogFormatter)
        ensures
            r@ == Seq::<(Seq<char>, StyleKind)>::empty(),
    {
        let r = LogFormatter { rules: Vec::new() };
        proof {
            assert(r@ =~= Seq::<(Seq<char>, StyleKind)>::empty());
        }
        r
    }

    /// Append one rule: this succeeds exactly when the regex engine accepts
    /// the pattern. On a rejected pattern the formatter is unchanged and the
    /// error is reported.
    pub fn add_rule(&mut self, pattern: &str, style: StyleKind) -> (r: Result<(), PatternError>)
        ensures
            r is Ok <==> regex_compiles(pattern@),
            r is Ok ==> final(self)@ == old(self)@.push((pattern@, style)),
            r is Err ==> final(self)@ == old(self)@,
    {
        match MatchRule::new(pattern, style) {
            Ok(rule) => {
                let ghost old_rules = self.rules@;
                self.rules.push(rule);
                proof {
                    assert forall|i: int| 0 <= i < self.rules@.len() implies self@[i] == old(
                        self,
                    )@.push((pattern@, style))[i] by {
                        lemma_formatter_view_index(self, i);
                        if i < old_rules.len() {
                            assert(self.rules@[i] == old_rules[i]);
                        }
                    };
                    assert(self@ =~= old(self)@.push((pattern@, style)));
                }
                Ok(())
            },
            Err(_) => Err(PatternError),
        }
    }

    /// Format one line: collect every rule's matches, sort them by start
    /// position (stable), and sweep left to right into segments.
    pub fn format_line(&self, line: &str) -> (r: Vec<Segment>)
        ensures
            segs_view(r@) == format_spec(self@, line@),
    {
        let line_len = line.unicode_len();
        // Collect all matches, tagged with their rule's style.
        let mut matches: Vec<(usize, usize, StyleKind)> = Vec::new();
        let mut ri: usize = 0;
        proof {
            assert(self@.take(0) =~= Seq::<(Seq<char>, StyleKind)>::empty());
            assert(match_views(matches@) =~= all_matches(self@.take(0), line@));
        }
        while ri < self.rules.len()
            invariant
                ri <= self.rules@.len(),
                self@.len() == self.rules@.len(),
                line_len == line@.len(),
                match_views(matches@) == all_matches(self@.take(ri as int), line@),
                forall|i: int|
                    0 <= i < matches@.len() ==> (#[trigger] matches@[i]).0 <= matches@[i].1
                        <= line@.len(),
            decreases self.rules@.len() - ri,
        {
            let found = find_in(&self.rules[ri], line);
            proof {
                lemma_formatter_view_index(self, ri as int);
            }
            let style = self.rules[ri].style;
            let ghost found_views = regex_find(self.rules@[ri as int].pattern_spec(), line@);
            let mut fi: usize = 0;
            proof {
                assert(found_views.take(0) =~= Seq::<(int, int)>::empty());
                assert(tag_matches(found_views.take(0), style) =~= Seq::<
                    (int, int, StyleKind),
                >::empty());
                assert(match_views(matches@) + tag_matches(found_views.take(0), style)
                    =~= match_views(matches@));
            }
            while fi < found.len()
                invariant
                    fi <= found@.len(),
                    line_len == line@.len(),
                    found@.map_values(|m: (usize, usize)| (m.0 as int, m.1 as int)) == found_views,
                    forall|i: int|
                        0 <= i < found@.len() ==> (#[trigger] found@[i]).0 <= found@[i].1
                            <= line@.len(),
                    match_views(matches@) == all_matches(self@.take(ri as int), line@)
                        + tag_matches(found_views.take(fi as int), style),
                    forall|i: int|
                        0 <= i < matches@.len() ==> (#[trigger] matches@[i]).0 <= matches@[i].1
                            <= line@.len(),
                decreases found@.len() - fi,
            {
                let m = found[fi];
                proof {
                    lemma_match_views_push(matches@, (m.0, m.1, style));
                    assert(found_views[fi as int] == (m.0 as int, m.1 as int));
                    assert(tag_matches(found_views.take(fi + 1), style) =~= tag_matches(
                        found_views.take(fi as int),
                        style,
                    ).push((m.0 as int, m.1 as int, style)));
                }
                matches.push((m.0, m.1, style));
                proof {
                    assert(match_views(matches@) =~= all_matches(self@.take(ri as int), line@)
                        + tag_matches(found_views.take(fi + 1), style));
                }
                fi = fi + 1;
            }
            proof {
                assert(found_views.take(found@.len() as int) =~= found_views);
                assert(self@.take(ri as int) =~= self@.take(ri + 1).drop_last());
                lemma_all_matches_concat(self@.take(ri as int), self@.take(ri + 1), line@);
                assert(self@.take(ri + 1).last() == self@[ri as int]);
            }
            ri = ri + 1;
        }
        proof {
            assert(self@.take(self.rules@.len() as int) =~= self@);
        }
        // Stable insertion sort by start position.
        let mut sorted: Vec<(usize, usize, StyleKind)> = Vec::new();
        let mut mi: usize = 0;
        proof {
            assert(match_views(matches@).take(0) =~= Seq::<(int, int, StyleKind)>::empty());
            assert(match_views(sorted@) =~= sort_by_start(match_views(matches@).take(0)));
        }
        while mi < matches.len()
            invariant
                mi <= matches@.len(),
                line_len == line@.len(),
                match_views(matches@) == all_matches(self@, line@),
                forall|i: int|
                    0 <= i < matches@.len() ==> (#[trigger] matches@[i]).0 <= matches@[i].1
                        <= line@.len(),
                match_views(sorted@) == sort_by_start(match_views(matches@).take(mi as int)),
                sorted@.len() == mi,
                forall|i: int|
                    0 <= i < sorted@.len() ==> (#[trigger] sorted@[i]).0 <= sorted@[i].1
                        <= line@.len(),
                forall|i: int|
                    0 <= i < sorted@.len() - 1 ==> (#[trigger] sorted@[i]).0 <= sorted@[i + 1].0,
            decreases matches@.len() - mi,
        {
            let m = matches[mi];
            let mut k: usize = 0;
            while k < sorted.len() && sorted[k].0 <= m.0
                invariant
                    k <= sorted@.len(),
                    forall|j: int| 0 <= j < k ==> (#[trigger] sorted@[j]).0 <= m.0,
                decreases sorted@.len() - k,
            {
                k = k + 1;
            }
            proof {
                lemma_insert_by_start_at(
                    (m.0 as int, m.1 as int, m.2),
                    match_views(sorted@),
                    k as int,
                );
                assert(match_views(matches@).take(mi + 1).drop_last() =~= match_views(
                    matches@,
                ).take(mi as int));
                lemma_match_views_index(matches@, mi as int);
                assert(match_views(matches@).take(mi + 1).last() == (m.0 as int, m.1 as int, m.2));
            }
            let ghost old_sorted = sorted@;
            sorted.insert(k, m);
            proof {
                assert forall|i: int|
                    0 <= i < sorted@.len() implies match_views(sorted@)[i] == insert_by_start(
                    (m.0 as int, m.1 as int, m.2),
                    match_views(old_sorted),
                )[i] by {
                    lemma_match_views_index(sorted@, i);
                    if i < k {
                        lemma_match_views_index(old_sorted, i);
                        assert(sorted@[i] == old_sorted[i]);
                    } else if i > k {
                        lemma_match_views_index(old_sorted, i - 1);
                        assert(sorted@[i] == old_sorted[i - 1]);
                    } else {
                        assert(sorted@[i] == m);
                    }
                };
                assert(match_views(sorted@) =~= insert_by_start(
                    (m.0 as int, m.1 as int, m.2),
                    match_views(old_sorted),
                ));
                assert(match_views(sorted@) =~= sort_by_start(
                    match_views(matches@).take(mi + 1),
                ));
            }
            mi = mi + 1;
        }
        proof {
            assert(match_views(matches@).take(matches@.len() as int) =~= match_views(matches@));
        }
        // Sweep left to right, emitting unstyled gaps and styled matches.
        let ghost sms = match_views(sorted@);
        let mut segs: Vec<Segment> = Vec::new();
        let mut last_end: usize = 0;
        let mut si: usize = 0;
        proof {
            assert(sms.skip(0) =~= sms);
        }
        while si < sorted.len()
            invariant
                si <= sorted@.len(),
                line_len == line@.len(),
                sms == match_views(sorted@),
                forall|i: int|
                    0 <= i < sorted@.len() ==> (#[trigger] sorted@[i]).0 <= sorted@[i].1
                        <= line@.len(),
                last_end <= line@.len(),
                sweep(line@, sms, 0) == segs_view(segs@) + sweep(
                    line@,
                    sms.skip(si as int),
                    last_end as int,
                ),
            decreases sorted@.len() - si,
        {
            let m = sorted[si];
            proof {
                lemma_match_views_index(sorted@, si as int);
                assert(sms.skip(si as int)[0] == (m.0 as int, m.1 as int, m.2));
                assert(sms.skip(si as int).skip(1) =~= sms.skip(si + 1));
            }
            if m.0 > last_end {
                let gap_text = line.substring_char(last_end, m.0);
                let ghost before = segs@;
                segs.push(Segment { text: gap_text.to_owned(), style: StyleKind::Plain });
                proof {
                    lemma_segs_view_push(before, segs@.last());
                }
            }
            let styled_text = line.substring_char(m.0, m.1);
            let ghost before2 = segs@;
            segs.push(Segment { text: styled_text.to_owned(), style: m.2 });
            proof {
                lemma_segs_view_push(before2, segs@.last());
            }
            last_end = m.1;
            proof {
                assert(sweep(line@, sms, 0) =~= segs_view(segs@) + sweep(
                    line@,
                    sms.skip(si + 1),
                    last_end as int,
                ));
            }
            si = si + 1;
        }
        proof {
            assert(sms.skip(sorted@.len() as int) =~= Seq::<(int, int, StyleKind)>::empty());
        }
        if last_end < line_len {
            let tail_text = line.substring_char(last_end, line_len);
            let ghost before3 = segs@;
            segs.push(Segment { text: tail_text.to_owned(), style: StyleKind::Plain });
            proof {
                lemma_segs_view_push(before3, segs@.last());
                assert(segs_view(segs@) =~= format_spec(self@, line@));
            }
        } else {
            proof {
                assert(segs_view(segs@) + Seq::<(Seq<char>, StyleKind)>::empty() =~= segs_view(
                    segs@,
                ));
                assert(segs_view(segs@) =~= format_spec(self@, line@));
            }
        }
        segs
    }
}

/// Collecting matches rule list by rule list concatenates their matches.
proof fn lemma_all_matches_concat(
    a: Seq<(Seq<char>, StyleKind)>,
    ab: Seq<(Seq<char>, StyleKind)>,
    line: Seq<char>,
)
    requires
        a.len() + 1 == ab.len(),
        a == ab.drop_last(),
    ensures
        all_matches(ab, line) == all_matches(a, line) + tag_matches(
            regex_find(ab.last().0, line),
            ab.last().1,
        ),
    decreases a.len(),
{
    let last = ab.last();
    if a.len() == 0 {
        let e = Seq::<(Seq<char>, StyleKind)>::empty();
        assert(ab.skip(1) =~= e);
        assert(all_matches(e, line) == Seq::<(int, int, StyleKind)>::empty());
        assert(ab[0] == last);
        assert(all_matches(ab, line) =~= all_matches(a, line) + tag_matches(
            regex_find(last.0, line),
            last.1,
        ));
    } else {
        assert(a.skip(1) =~= ab.skip(1).drop_last());
        lemma_all_matches_concat(a.skip(1), ab.skip(1), line);
        assert(ab.skip(1).last() == last);
        assert(a[0] == ab[0]);
        assert(all_matches(ab, line) =~= all_matches(a, line) + tag_matches(
            regex_find(last.0, line),
            last.1,
        ));
    }
}

/// Where the scan stopped is exactly where the stable insertion places the
/// element.
proof fn lemma_insert_by_start_at(
    m: (int, int, StyleKind),
    s: Seq<(int, int, StyleKind)>,
    k: int,
)
    requires
        0 <= k <= s.len(),
        forall|j: int| 0 <= j < k ==> (#[trigger] s[j]).0 <= m.0,
        k < s.len() ==> s[k].0 > m.0,
    ensures
        insert_by_start(m, s) == s.insert(k, m),
    decreases s.len(),
{
    if s.len() == 0 {
        assert(insert_by_start(m, s) =~= s.insert(0, m));
    } else if k == 0 {
        assert(insert_by_start(m, s) =~= s.insert(0, m));
    } else {
        lemma_insert_by_start_at(m, s.skip(1), k - 1);
        assert(s.skip(1).insert(k - 1, m) =~= s.insert(k, m).skip(1));
        assert(insert_by_start(m, s) =~= s.insert(k, m));
    }
}

/// Unmatched-line law: a line that no rule matches formats as a single
/// unstyled segment equal to the line, or as no segment at all when the line
/// is empty.
pub proof fn lemma_unmatched_line_plain(rules: Seq<(Seq<char>, StyleKind)>, line: Seq<char>)
    requires
        forall|i: int| 0 <= i < rules.len() ==> regex_find((#[trigger] rules[i]).0, line).len() == 0,
    ensures
        line.len() > 0 ==> format_spec(rules, line) == seq![(line, StyleKind::Plain)],
        line.len() == 0 ==> format_spec(rules, line) == Seq::<(Seq<char>, StyleKind)>::empty(),
{
    lemma_all_matches_of_unmatched(rules, line);
    assert(sort_by_start(Seq::<(int, int, StyleKind)>::empty()) =~= Seq::<
        (int, int, StyleKind),
    >::empty());
    if line.len() > 0 {
        assert(line.subrange(0, line.len() as int) =~= line);
        assert(format_spec(rules, line) =~= seq![(line, StyleKind::Plain)]);
    } else {
        assert(format_spec(rules, line) =~= Seq::<(Seq<char>, StyleKind)>::empty());
    }
}

proof fn lemma_all_matches_of_unmatched(rules: Seq<(Seq<char>, StyleKind)>, line: Seq<char>)
    requires
        forall|i: int| 0 <= i < rules.len() ==> regex_find((#[trigger] rules[i]).0, line).len() == 0,
    ensures
        all_matches(rules, line) == Seq::<(int, int, StyleKind)>::empty(),
    decreases rules.len(),
{
    if rules.len() == 0 {
    } else {
        assert(tag_matches(regex_find(rules[0].0, line), rules[0].1).len() == 0);
        lemma_all_matches_of_unmatched(rules.skip(1), line);
        assert(all_matches(rules, line) =~= Seq::<(int, int, StyleKind)>::empty());
    }
}

/// The fixed rule set: timestamps, warnings, errors, brace-delimited tokens,
/// info markers, and IPv4 literals, in that collection order.
pub open spec fn fixed_rules() -> Seq<(Seq<char>, StyleKind)> {
    seq![
        ("\\d{4}-\\d{2}-\\d{2} \\d{2}:\\d{2}:\\d{2}(?:\\.\\d{3})?(?:\\,\\d{3})?"@, StyleKind::Green),
        ("WARNING|WARN"@, StyleKind::Yellow),
        ("ERROR|FATAL|FAILURE"@, StyleKind::Red),
        ("\\{.*?\\}"@, StyleKind::Cyan),
        ("INFO"@, StyleKind::Blue),
        ("\\b(?:\\d{1,3}\\.){3}\\d{1,3}\\b"@, StyleKind::Magenta),
    ]
}

/// Every pattern of the fixed rule set is one the regex engine accepts.
pub open spec fn fixed_rules_compile() -> bool {
    forall|i: int|
        0 <= i < fixed_rules().len() ==> regex_compiles((#[trigger] fixed_rules()[i]).0)
}

/// Build the formatter with the fixed rule set: it is returned exactly when
/// the regex engine accepts all six fixed patterns.
pub fn create_log_formatter() -> (r: Option<LogFormatter>)
    ensures
        r is Some <==> fixed_rules_compile(),
        r is Some ==> r.unwrap()@ == fixed_rules(),
{
    let mut f = LogFormatter::new();
    if f.add_rule(
        "\\d{4}-\\d{2}-\\d{2} \\d{2}:\\d{2}:\\d{2}(?:\\.\\d{3})?(?:\\,\\d{3})?",
        StyleKind::Green,
    ).is_err() {
        proof {
            assert(!regex_compiles(fixed_rules()[0].0));
        }
        return None;
    }
    if f.add_rule("WARNING|WARN", StyleKind::Yellow).is_err() {
        proof {
            assert(!regex_compiles(fixed_rules()[1].0));
        }
        return None;
    }
    if f.add_rule("ERROR|FATAL|FAILURE", StyleKind::Red).is_err() {
        proof {
            assert(!regex_compiles(fixed_rules()[2].0));
        }
        return None;
    }
    if f.add_rule("\\{.*?\\}", StyleKind::Cyan).is_err() {
        proof {
            assert(!regex_compiles(fixed_rules()[3].0));
        }
        return None;
    }
    if f.add_rule("INFO", StyleKind::Blue).is_err() {
        proof {
            assert(!regex_compiles(fixed_rules()[4].0));
        }
        return None;
    }
    if f.add_rule("\\b(?:\\d{1,3}\\.){3}\\d{1,3}\\b", StyleKind::Magenta).is_err() {
        proof {
            assert(!regex_compiles(fixed_rules()[5].0));
        }
        return None;
    }
    proof {
        assert(f@ =~= fixed_rules());
        assert forall|i: int|
            0 <= i < fixed_rules().len() implies regex_compiles(
            (#[trigger] fixed_rules()[i]).0,
        ) by {
            if i == 0 {
                assert(regex_compiles(fixed_rules()[0].0));
            } else if i == 1 {
                assert(regex_compiles(fixed_rules()[1].0));
            } else if i == 2 {
                assert(regex_compiles(fixed_rules()[2].0));
            } else if i == 3 {
                assert(regex_compiles(fixed_rules()[3].0));
            } else if i == 4 {
                assert(regex_compiles(fixed_rules()[4].0));
            } else {
                assert(regex_compiles(fixed_rules()[5].0));
            }
        };
    }
    Some(f)
}

} // verus!
