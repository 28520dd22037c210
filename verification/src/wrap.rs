//! Display-width-bounded line wrapping, grapheme-cluster aware: a raw line is
//! split into sub-lines whose summed cluster widths stay within the pane
//! width; a single cluster wider than the pane is emitted alone, never split.

use unicode_segmentation::UnicodeSegmentation;
use vstd::prelude::*;
use vstd::seq_lib::lemma_flatten_concat;
use vstd::string::StrSliceExecFns;
use vstd::string::StringExecFns;

verus! {

/// The decomposition of a string into extended grapheme clusters.
pub uninterp spec fn grapheme_split(s: Seq<char>) -> Seq<Seq<char>>;

/// The displayed width of a string in terminal columns.
pub uninterp spec fn display_width(s: Seq<char>) -> nat;

/// The views of a sequence of strings.
pub open spec fn views_of(v: Seq<String>) -> Seq<Seq<char>> {
    v.map_values(|s: String| s@)
}

/// Each sub-line of a wrapping, flattened from clusters to characters.
pub open spec fn flatten_each(d: Seq<Seq<Seq<char>>>) -> Seq<Seq<char>> {
    d.map_values(|sub: Seq<Seq<char>>| sub.flatten())
}

/// Indexing into `views_of` is the view of the indexed string.
pub broadcast proof fn lemma_views_of_index(v: Seq<String>, i: int)
    requires
        0 <= i < v.len(),
    ensures
        #[trigger] views_of(v)[i] == v[i]@,
{
}

/// Indexing into `flatten_each` flattens the indexed sub-line.
pub broadcast proof fn lemma_flatten_each_index(d: Seq<Seq<Seq<char>>>, i: int)
    requires
        0 <= i < d.len(),
    ensures
        #[trigger] flatten_each(d)[i] == d[i].flatten(),
{
}

/// Relies on unicode_segmentation's `UnicodeSegmentation::graphemes` with
/// extended grapheme clusters: the clusters are non-empty substrings of the
/// input, in order, so concatenating them restores the input; the
/// decomposition depends on the characters alone.
#[verifier::external_body]
fn split_graphemes(line: &str) -> (r: Vec<String>)
    ensures
        views_of(r@) == grapheme_split(line@),
        views_of(r@).flatten() == line@,
        forall|i: int| 0 <= i < r@.len() ==> r@[i]@.len() >= 1,
{
    line.graphemes(true).map(|g| g.to_string()).collect()
}

/// Relies on unicode_width's `UnicodeWidthStr::width`: the displayed column
/// width of a string depends on its characters alone.
#[verifier::external_body]
fn str_width(g: &str) -> (r: usize)
    ensures
        r as nat == display_width(g@),
{
    unicode_width::UnicodeWidthStr::width(g)
}

/// The summed display widths of a sequence of grapheme clusters.
pub open spec fn widths_sum(gs: Seq<Seq<char>>) -> nat
    decreases gs.len(),
{
    if gs.len() == 0 {
        0
    } else {
        display_width(gs[0]) + widths_sum(gs.skip(1))
    }
}

/// The wrapping loop, one grapheme cluster at a time: `cur` is the sub-line
/// under construction and `cw` its summed width. A cluster that does not fit
/// flushes `cur`; a cluster wider than `max` is emitted alone.
pub open spec fn wrap_groups_rec(
    gs: Seq<Seq<char>>,
    max: nat,
    cur: Seq<Seq<char>>,
    cw: nat,
) -> Seq<Seq<Seq<char>>>
    decreases gs.len(),
{
    if gs.len() == 0 {
        if cur.len() > 0 {
            seq![cur]
        } else {
            seq![]
        }
    } else {
        let g = gs[0];
        let gw = display_width(g);
        if cw + gw > max {
            let flushed: Seq<Seq<Seq<char>>> = if cur.len() > 0 {
                seq![cur]
            } else {
                seq![]
            };
            if gw > max {
                flushed + seq![seq![g]] + wrap_groups_rec(gs.skip(1), max, seq![], 0)
            } else {
                flushed + wrap_groups_rec(gs.skip(1), max, seq![g], gw)
            }
        } else {
            wrap_groups_rec(gs.skip(1), max, cur.push(g), cw + gw)
        }
    }
}

/// How a sequence of grapheme clusters wraps at width `max`: each element is
/// one sub-line, itself a sequence of clusters.
pub open spec fn wrap_spec(gs: Seq<Seq<char>>, max: nat) -> Seq<Seq<Seq<char>>> {
    wrap_groups_rec(gs, max, seq![], 0)
}

proof fn lemma_widths_sum_push(gs: Seq<Seq<char>>, g: Seq<char>)
    ensures
        widths_sum(gs.push(g)) == widths_sum(gs) + display_width(g),
    decreases gs.len(),
{
    if gs.len() == 0 {
        assert(gs.push(g).skip(1) =~= Seq::<Seq<char>>::empty());
        assert(widths_sum(Seq::<Seq<char>>::empty()) == 0);
    } else {
        assert(gs.push(g).skip(1) =~= gs.skip(1).push(g));
        lemma_widths_sum_push(gs.skip(1), g);
    }
}

/// Pushing a string whose view is the flattening of a pushed sub-line keeps
/// the two maps in step.
proof fn lemma_views_flatten_push(
    wv: Seq<String>,
    dv: Seq<Seq<Seq<char>>>,
    s: String,
    sub: Seq<Seq<char>>,
)
    requires
        views_of(wv) == flatten_each(dv),
        s@ == sub.flatten(),
    ensures
        views_of(wv.push(s)) == flatten_each(dv.push(sub)),
{
    assert(views_of(wv).len() == wv.len());
    assert(flatten_each(dv).len() == dv.len());
    assert(wv.len() == dv.len());
    assert forall|i: int|
        0 <= i < wv.push(s).len() implies views_of(wv.push(s))[i] == flatten_each(dv.push(sub))[i] by {
        lemma_views_of_index(wv.push(s), i);
        lemma_flatten_each_index(dv.push(sub), i);
        if i < wv.len() {
            lemma_views_of_index(wv, i);
            lemma_flatten_each_index(dv, i);
            assert(views_of(wv)[i] == flatten_each(dv)[i]);
        }
    };
    assert(views_of(wv.push(s)) =~= flatten_each(dv.push(sub)));
}

proof fn lemma_wrap_rec_flatten(gs: Seq<Seq<char>>, max: nat, cur: Seq<Seq<char>>, cw: nat)
    ensures
        wrap_groups_rec(gs, max, cur, cw).flatten() == cur + gs,
    decreases gs.len(),
{
    if gs.len() == 0 {
        if cur.len() > 0 {
            seq![cur].lemma_flatten_one_element();
            assert(seq![cur].flatten() == cur);
        }
        assert(wrap_groups_rec(gs, max, cur, cw).flatten() =~= cur + gs);
    } else {
        let g = gs[0];
        let gw = display_width(g);
        let rest = gs.skip(1);
        let flushed: Seq<Seq<Seq<char>>> = if cur.len() > 0 {
            seq![cur]
        } else {
            seq![]
        };
        if cur.len() > 0 {
            seq![cur].lemma_flatten_one_element();
        }
        assert(flushed.flatten() =~= cur);
        if cw + gw > max {
            if gw > max {
                lemma_wrap_rec_flatten(rest, max, seq![], 0);
                seq![seq![g]].lemma_flatten_one_element();
                lemma_flatten_concat(flushed + seq![seq![g]], wrap_groups_rec(rest, max, seq![], 0));
                lemma_flatten_concat(flushed, seq![seq![g]]);
                assert(wrap_groups_rec(gs, max, cur, cw).flatten() =~= cur + gs);
            } else {
                lemma_wrap_rec_flatten(rest, max, seq![g], gw);
                lemma_flatten_concat(flushed, wrap_groups_rec(rest, max, seq![g], gw));
                assert(wrap_groups_rec(gs, max, cur, cw).flatten() =~= cur + gs);
            }
        } else {
            lemma_wrap_rec_flatten(rest, max, cur.push(g), cw + gw);
            assert(cur.push(g) + rest =~= cur + gs);
        }
    }
}

/// Round-trip law: wrapping loses and reorders nothing — the concatenation of
/// the produced sub-lines is exactly the input cluster sequence.
pub proof fn lemma_wrap_round_trip(gs: Seq<Seq<char>>, max: nat)
    ensures
        wrap_spec(gs, max).flatten() == gs,
{
    lemma_wrap_rec_flatten(gs, max, seq![], 0);
    assert(seq![] + gs =~= gs);
}

/// Every grapheme cluster of the sequence is non-empty.
pub open spec fn clusters_nonempty(gs: Seq<Seq<char>>) -> bool {
    forall|i: int| 0 <= i < gs.len() ==> (#[trigger] gs[i]).len() >= 1
}

proof fn lemma_wrap_rec_groups_nonempty(gs: Seq<Seq<char>>, max: nat, cur: Seq<Seq<char>>, cw: nat)
    requires
        clusters_nonempty(gs),
        clusters_nonempty(cur),
    ensures
        forall|t: int|
            0 <= t < wrap_groups_rec(gs, max, cur, cw).len() ==> (#[trigger] wrap_groups_rec(
                gs,
                max,
                cur,
                cw,
            )[t]).len() >= 1 && clusters_nonempty(wrap_groups_rec(gs, max, cur, cw)[t]),
    decreases gs.len(),
{
    let res = wrap_groups_rec(gs, max, cur, cw);
    if gs.len() == 0 {
        if cur.len() > 0 {
            assert(res[0] == cur);
        }
    } else {
        let g = gs[0];
        let gw = display_width(g);
        let rest = gs.skip(1);
        let flushed: Seq<Seq<Seq<char>>> = if cur.len() > 0 {
            seq![cur]
        } else {
            seq![]
        };
        assert(clusters_nonempty(rest));
        assert(clusters_nonempty(seq![g]));
        if cw + gw > max {
            if gw > max {
                lemma_wrap_rec_groups_nonempty(rest, max, seq![], 0);
                let tail = wrap_groups_rec(rest, max, seq![], 0);
                assert forall|t: int|
                    0 <= t < res.len() implies (#[trigger] res[t]).len() >= 1 && clusters_nonempty(
                    res[t],
                ) by {
                    if t < flushed.len() {
                        assert(res[t] == cur);
                    } else if t == flushed.len() {
                        assert(res[t] == seq![g]);
                    } else {
                        assert(res[t] == tail[t - flushed.len() - 1]);
                    }
                };
            } else {
                lemma_wrap_rec_groups_nonempty(rest, max, seq![g], gw);
                let tail = wrap_groups_rec(rest, max, seq![g], gw);
                assert forall|t: int|
                    0 <= t < res.len() implies (#[trigger] res[t]).len() >= 1 && clusters_nonempty(
                    res[t],
                ) by {
                    if t < flushed.len() {
                        assert(res[t] == cur);
                    } else {
                        assert(res[t] == tail[t - flushed.len()]);
                    }
                };
            }
        } else {
            assert(clusters_nonempty(cur.push(g)));
            lemma_wrap_rec_groups_nonempty(rest, max, cur.push(g), cw + gw);
            let tail = wrap_groups_rec(rest, max, cur.push(g), cw + gw);
            assert(res == tail);
            assert forall|t: int|
                0 <= t < res.len() implies (#[trigger] res[t]).len() >= 1 && clusters_nonempty(
                res[t],
            ) by {
                assert(res[t] == tail[t]);
            };
        }
    }
}

/// Sub-line law: wrapping never emits an empty sub-line, and yields no
/// sub-line at all exactly for the empty cluster sequence.
pub proof fn lemma_wrap_nonempty(gs: Seq<Seq<char>>, max: nat)
    requires
        clusters_nonempty(gs),
    ensures
        forall|t: int|
            0 <= t < wrap_spec(gs, max).len() ==> (#[trigger] wrap_spec(gs, max)[t]).flatten().len()
                >= 1,
        wrap_spec(gs, max).len() == 0 <==> gs.len() == 0,
{
    lemma_wrap_rec_groups_nonempty(gs, max, seq![], 0);
    assert forall|t: int|
        0 <= t < wrap_spec(gs, max).len() implies (#[trigger] wrap_spec(gs, max)[t]).flatten().len()
        >= 1 by {
        let sub = wrap_spec(gs, max)[t];
        assert(sub.flatten() == sub.first() + sub.drop_first().flatten());
        assert(sub.first().len() >= 1);
    };
    lemma_wrap_round_trip(gs, max);
    if gs.len() == 0 {
        assert(wrap_spec(gs, max).len() == 0);
    } else if wrap_spec(gs, max).len() == 0 {
        assert(wrap_spec(gs, max).flatten() =~= Seq::<Seq<char>>::empty());
    }
}

/// A produced sub-line is within the width bound, or is a single cluster that
/// is itself wider than the bound.
pub open spec fn sub_line_ok(sub: Seq<Seq<char>>, max: nat) -> bool {
    widths_sum(sub) <= max || (sub.len() == 1 && display_width(sub[0]) > max)
}

proof fn lemma_wrap_rec_width(gs: Seq<Seq<char>>, max: nat, cur: Seq<Seq<char>>, cw: nat)
    requires
        cw == widths_sum(cur),
        cw <= max,
    ensures
        forall|t: int|
            0 <= t < wrap_groups_rec(gs, max, cur, cw).len() ==> sub_line_ok(
                #[trigger] wrap_groups_rec(gs, max, cur, cw)[t],
                max,
            ),
    decreases gs.len(),
{
    let res = wrap_groups_rec(gs, max, cur, cw);
    if gs.len() == 0 {
        if cur.len() > 0 {
            assert forall|t: int| 0 <= t < res.len() implies sub_line_ok(
                #[trigger] res[t],
                max,
            ) by {
                assert(res[t] == cur);
                assert(sub_line_ok(cur, max));
            };
        }
    } else {
        let g = gs[0];
        let gw = display_width(g);
        let rest = gs.skip(1);
        let flushed: Seq<Seq<Seq<char>>> = if cur.len() > 0 {
            seq![cur]
        } else {
            seq![]
        };
        if cw + gw > max {
            assert(widths_sum(Seq::<Seq<char>>::empty()) == 0);
            assert(widths_sum(seq![g]) == gw) by {
                assert(seq![g].skip(1) =~= Seq::<Seq<char>>::empty());
                assert(widths_sum(Seq::<Seq<char>>::empty()) == 0);
            };
            if gw > max {
                lemma_wrap_rec_width(rest, max, seq![], 0);
                let tail = wrap_groups_rec(rest, max, seq![], 0);
                assert forall|t: int| 0 <= t < res.len() implies sub_line_ok(
                    #[trigger] res[t],
                    max,
                ) by {
                    if t < flushed.len() {
                        assert(res[t] == cur);
                    } else if t == flushed.len() {
                        assert(res[t] == seq![g]);
                    } else {
                        assert(res[t] == tail[t - flushed.len() - 1]);
                    }
                };
            } else {
                lemma_wrap_rec_width(rest, max, seq![g], gw);
                let tail = wrap_groups_rec(rest, max, seq![g], gw);
                assert forall|t: int| 0 <= t < res.len() implies sub_line_ok(
                    #[trigger] res[t],
                    max,
                ) by {
                    if t < flushed.len() {
                        assert(res[t] == cur);
                    } else {
                        assert(res[t] == tail[t - flushed.len()]);
                    }
                };
            }
        } else {
            lemma_widths_sum_push(cur, g);
            lemma_wrap_rec_width(rest, max, cur.push(g), cw + gw);
            let tail = wrap_groups_rec(rest, max, cur.push(g), cw + gw);
            assert(res == tail);
            assert forall|t: int| 0 <= t < res.len() implies sub_line_ok(
                #[trigger] res[t],
                max,
            ) by {
                assert(res[t] == tail[t]);
            };
        }
    }
}

/// Width law: every produced sub-line's summed cluster width is within `max`,
/// except a sub-line that is a single cluster wider than `max`, which is
/// emitted alone (the deliberate overflow policy for unsplittable glyphs).
pub proof fn lemma_wrap_width(gs: Seq<Seq<char>>, max: nat)
    ensures
        forall|t: int|
            0 <= t < wrap_spec(gs, max).len() ==> sub_line_ok(
                #[trigger] wrap_spec(gs, max)[t],
                max,
            ),
{
    lemma_wrap_rec_width(gs, max, seq![], 0);
}

proof fn lemma_flatten_map_flatten(s: Seq<Seq<Seq<char>>>)
    ensures
        flatten_each(s).flatten() == s.flatten().flatten(),
    decreases s.len(),
{
    if s.len() == 0 {
        assert(flatten_each(s).flatten() =~= s.flatten().flatten());
    } else {
        lemma_flatten_map_flatten(s.drop_first());
        assert(flatten_each(s).drop_first() =~= flatten_each(s.drop_first()));
        lemma_flatten_concat(s.first(), s.drop_first().flatten());
        assert(flatten_each(s).flatten() =~= s.flatten().flatten());
    }
}

/// Split `line` into sub-lines whose summed grapheme-cluster widths stay
/// within `max_width`; a cluster wider than `max_width` stands alone on its
/// own sub-line. Concatenating the sub-lines restores `line` exactly; no
/// sub-line is empty, and only the empty line wraps to nothing.
pub fn wrap_line(line: &str, max_width: usize) -> (r: Vec<String>)
    ensures
        views_of(r@) == flatten_each(wrap_spec(grapheme_split(line@), max_width as nat)),
        views_of(r@).flatten() == line@,
        forall|i: int| 0 <= i < r@.len() ==> (#[trigger] r@[i])@.len() >= 1,
        r@.len() == 0 <==> line@.len() == 0,
{
    let gs = split_graphemes(line);
    let ghost all = grapheme_split(line@);
    let mut wrapped: Vec<String> = Vec::new();
    let mut current_line = String::new();
    let mut current_width: usize = 0;
    let ghost mut done: Seq<Seq<Seq<char>>> = seq![];
    let ghost mut cur_gs: Seq<Seq<char>> = seq![];
    let mut idx: usize = 0;
    proof {
        assert(all.skip(0) =~= all);
        assert(views_of(wrapped@) =~= flatten_each(done));
        assert(forall|i: int| 0 <= i < all.len() ==> all[i] == gs@[i]@);
    }
    while idx < gs.len()
        invariant
            views_of(gs@) == all,
            forall|i: int| 0 <= i < all.len() ==> all[i].len() >= 1,
            idx <= gs.len(),
            gs@.len() == all.len(),
            current_line@ == cur_gs.flatten(),
            current_width as nat == widths_sum(cur_gs),
            current_width <= max_width,
            forall|i: int| 0 <= i < cur_gs.len() ==> cur_gs[i].len() >= 1,
            wrap_spec(all, max_width as nat) == done + wrap_groups_rec(
                all.skip(idx as int),
                max_width as nat,
                cur_gs,
                current_width as nat,
            ),
            views_of(wrapped@) == flatten_each(done),
        decreases gs.len() - idx,
    {
        let g = gs[idx].clone();
        let gw = str_width(g.as_str());
        let ghost rest = all.skip(idx as int);
        proof {
            lemma_views_of_index(gs@, idx as int);
            assert(rest[0] == all[idx as int]);
            assert(all[idx as int] == gs@[idx as int]@);
            assert(rest.skip(1) =~= all.skip(idx + 1));
        }
        if gw > max_width - current_width {
            if !current_line.as_str().is_empty() {
                proof {
                    assert(cur_gs.len() > 0);
                }
                let ghost wv = wrapped@;
                let ghost dv = done;
                let ghost s_snap = current_line;
                wrapped.push(current_line);
                current_line = String::new();
                current_width = 0;
                proof {
                    lemma_views_flatten_push(wv, dv, s_snap, cur_gs);
                    done = done.push(cur_gs);
                    cur_gs = seq![];
                    assert(wrapped@ == wv.push(s_snap));
                }
            } else {
                proof {
                    if cur_gs.len() > 0 {
                        assert(current_line@.len() >= cur_gs.first().len());
                    }
                    assert(cur_gs.len() == 0);
                    assert(cur_gs =~= Seq::<Seq<char>>::empty());
                }
            }
            if gw > max_width {
                let ghost wv = wrapped@;
                let ghost dv = done;
                let ghost s_snap = g;
                wrapped.push(g);
                proof {
                    seq![all[idx as int]].lemma_flatten_one_element();
                    lemma_views_flatten_push(wv, dv, s_snap, seq![all[idx as int]]);
                    done = done.push(seq![all[idx as int]]);
                    assert(wrapped@ == wv.push(s_snap));
                    assert(wrap_spec(all, max_width as nat) =~= done + wrap_groups_rec(
                        all.skip(idx + 1),
                        max_width as nat,
                        seq![],
                        0,
                    ));
                }
            } else {
                current_line = g;
                current_width = gw;
                proof {
                    cur_gs = seq![all[idx as int]];
                    seq![all[idx as int]].lemma_flatten_one_element();
                    assert(widths_sum(cur_gs) == display_width(all[idx as int]) + widths_sum(
                        Seq::<Seq<char>>::empty(),
                    )) by {
                        assert(cur_gs.skip(1) =~= Seq::<Seq<char>>::empty());
                    };
                    assert(wrap_spec(all, max_width as nat) =~= done + wrap_groups_rec(
                        all.skip(idx + 1),
                        max_width as nat,
                        cur_gs,
                        gw as nat,
                    ));
                }
            }
        } else {
            proof {
                cur_gs.lemma_flatten_push(all[idx as int]);
                lemma_widths_sum_push(cur_gs, all[idx as int]);
            }
            current_line.append(g.as_str());
            current_width = current_width + gw;
            proof {
                cur_gs = cur_gs.push(all[idx as int]);
                assert(wrap_spec(all, max_width as nat) =~= done + wrap_groups_rec(
                    all.skip(idx + 1),
                    max_width as nat,
                    cur_gs,
                    current_width as nat,
                ));
            }
        }
        idx = idx + 1;
    }
    if !current_line.as_str().is_empty() {
        proof {
            assert(cur_gs.len() > 0);
        }
        let ghost wv = wrapped@;
        let ghost dv = done;
        let ghost s_snap = current_line;
        wrapped.push(current_line);
        proof {
            lemma_views_flatten_push(wv, dv, s_snap, cur_gs);
            done = done.push(cur_gs);
            assert(wrapped@ == wv.push(s_snap));
        }
    } else {
        proof {
            if cur_gs.len() > 0 {
                assert(current_line@.len() >= cur_gs.first().len());
            }
            assert(cur_gs.len() == 0);
        }
    }
    proof {
        assert(all.skip(gs@.len() as int) =~= Seq::<Seq<char>>::empty());
        assert(wrap_spec(all, max_width as nat) =~= done);
        lemma_wrap_round_trip(all, max_width as nat);
        lemma_flatten_map_flatten(wrap_spec(all, max_width as nat));
        let spec_subs = wrap_spec(all, max_width as nat);
        assert(clusters_nonempty(all));
        lemma_wrap_nonempty(all, max_width as nat);
        assert(views_of(wrapped@).len() == wrapped@.len());
        assert(flatten_each(spec_subs).len() == spec_subs.len());
        if all.len() == 0 {
            assert(all.flatten() =~= Seq::<char>::empty());
        } else {
            assert(all.flatten() == all.first() + all.drop_first().flatten());
            assert(line@.len() >= all.first().len());
        }
        assert forall|i: int| 0 <= i < wrapped@.len() implies (#[trigger] wrapped@[i])@.len()
            >= 1 by {
            lemma_views_of_index(wrapped@, i);
            lemma_flatten_each_index(spec_subs, i);
            assert(views_of(wrapped@)[i] == flatten_each(spec_subs)[i]);
            assert(spec_subs[i].flatten().len() >= 1);
        };
    }
    wrapped
}

} // verus!
