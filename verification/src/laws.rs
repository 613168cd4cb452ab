//! The laws of the path algebra.
//!
//! Each public proof function here states one property of parsing, merging,
//! resolving or rendering over the model of `model`, and proves it from the
//! definitions that the executable contracts use.

use vstd::prelude::*;

use crate::model::{
    PathModel, identity_model, is_sep, up_seg, seg_wf, segs_wf, model_wf, no_up, split_from,
    split_segs, spec_parse, drop_last_seg, merge_rest, spec_merge, spec_resolve, join_segs,
    spec_display, ends_with_up, seps_to_native, lemma_join_segs_push,
};

verus! {

/// The merge loop never introduces a traversal marker: if the accumulated
/// segments hold none, neither does its result.
pub proof fn lemma_merge_rest_no_up(acc: Seq<Seq<char>>, rest: Seq<Seq<char>>)
    requires
        no_up(acc),
    ensures
        no_up(merge_rest(acc, rest)),
    decreases rest.len(),
{
    if rest.len() == 0 {
    } else if rest[0] == up_seg() {
        assert(no_up(drop_last_seg(acc)));
        lemma_merge_rest_no_up(drop_last_seg(acc), rest.skip(1));
    } else {
        assert(no_up(acc.push(rest[0])));
        lemma_merge_rest_no_up(acc.push(rest[0]), rest.skip(1));
    }
}

/// A traversal-free addition is appended whole by the merge loop.
pub proof fn lemma_merge_rest_appends(acc: Seq<Seq<char>>, rest: Seq<Seq<char>>)
    requires
        no_up(rest),
    ensures
        merge_rest(acc, rest) == acc + rest,
    decreases rest.len(),
{
    if rest.len() == 0 {
        assert(acc + rest =~= acc);
    } else {
        assert(rest[0] != up_seg());
        assert(no_up(rest.skip(1)));
        lemma_merge_rest_appends(acc.push(rest[0]), rest.skip(1));
        assert(acc.push(rest[0]) + rest.skip(1) =~= acc + rest);
    }
}

/// Resolution is idempotent: collapsing traversal a second time changes
/// nothing, because the first pass leaves no `..` behind.
pub proof fn lemma_resolve_idempotent(ss: Seq<Seq<char>>)
    ensures
        spec_resolve(spec_resolve(ss)) == spec_resolve(ss),
{
    assert(no_up(Seq::<Seq<char>>::empty()));
    lemma_merge_rest_no_up(Seq::<Seq<char>>::empty(), ss);
    lemma_merge_rest_appends(Seq::<Seq<char>>::empty(), spec_resolve(ss));
    assert(Seq::<Seq<char>>::empty() + spec_resolve(ss) =~= spec_resolve(ss));
}

/// Splitting does not care which separator style delimits the fields.
pub proof fn lemma_split_seps_to_native(s: Seq<char>, cur: Seq<char>)
    ensures
        split_from(seps_to_native(s), cur) == split_from(s, cur),
    decreases s.len(),
{
    let t = seps_to_native(s);
    if s.len() == 0 {
    } else {
        assert(t.len() == s.len());
        assert(t[0] == if s[0] == '\\' {
            '/'
        } else {
            s[0]
        });
        assert(t.skip(1) =~= seps_to_native(s.skip(1)));
        if is_sep(s[0]) {
            lemma_split_seps_to_native(s.skip(1), Seq::<char>::empty());
        } else {
            assert(t[0] == s[0]);
            lemma_split_seps_to_native(s.skip(1), cur.push(s[0]));
        }
    }
}

/// Separator normalization: a text parses exactly as the same text with
/// every `\` replaced by `/`.  Any mixture or run of the two styles
/// collapses to the same segments and the same flags.
pub proof fn lemma_separator_normalization(s: Seq<char>)
    ensures
        spec_parse(seps_to_native(s)) == spec_parse(s),
{
    let t = seps_to_native(s);
    lemma_split_seps_to_native(s, Seq::<char>::empty());
    if s.len() > 0 {
        assert(t[0] == if s[0] == '\\' {
            '/'
        } else {
            s[0]
        });
        assert(is_sep(t[0]) == is_sep(s[0]));
        assert(t[s.len() - 1] == if s[s.len() - 1] == '\\' {
            '/'
        } else {
            s[s.len() - 1]
        });
        assert(is_sep(t[t.len() - 1]) == is_sep(s[s.len() - 1]));
        assert((t[t.len() - 1] == '.') == (s[s.len() - 1] == '.'));
        if s.len() >= 2 {
            assert((t[t.len() - 2] == '.') == (s[s.len() - 2] == '.'));
        }
        assert(ends_with_up(t) == ends_with_up(s));
    }
    assert(spec_parse(t) =~= spec_parse(s));
}

/// False-root suppression: merging ignores the addition's absoluteness
/// whenever the base is not the identity path, so an addition whose text
/// looks absolute is still treated as relative to the base.
pub proof fn lemma_false_root_ignored(base: PathModel, add: PathModel)
    requires
        base.segments.len() > 0 || base.absolute,
    ensures
        spec_merge(base, add) == spec_merge(
            base,
            PathModel { absolute: false, ..add },
        ),
{
    let stripped = PathModel { absolute: false, ..add };
    if add.segments.len() == 0 {
    } else {
        assert(spec_merge(base, add) =~= spec_merge(base, stripped));
    }
}

/// A traversal-free addition never discards the base's segments: they
/// stay, in order, as a prefix of the merged path.
pub proof fn lemma_merge_keeps_base(base: PathModel, add: PathModel)
    requires
        base.segments.len() > 0 || base.absolute,
        no_up(add.segments),
        add.segments.len() > 0,
    ensures
        spec_merge(base, add).segments == base.segments + add.segments,
{
    assert(add.segments[0] != up_seg());
    lemma_merge_rest_appends(base.segments, add.segments);
}

/// A separator-free prefix is collected whole into the current segment.
pub proof fn lemma_split_seg_prefix(seg: Seq<char>, rest: Seq<char>, cur: Seq<char>)
    requires
        forall|i: int| 0 <= i < seg.len() ==> !is_sep(#[trigger] seg[i]),
    ensures
        split_from(seg + rest, cur) == split_from(rest, cur + seg),
    decreases seg.len(),
{
    if seg.len() == 0 {
        assert(seg + rest =~= rest);
        assert(cur + seg =~= cur);
    } else {
        assert((seg + rest)[0] == seg[0]);
        assert((seg + rest).skip(1) =~= seg.skip(1) + rest);
        assert(forall|i: int|
            0 <= i < seg.skip(1).len() ==> !is_sep(#[trigger] seg.skip(1)[i]));
        lemma_split_seg_prefix(seg.skip(1), rest, cur.push(seg[0]));
        assert(cur.push(seg[0]) + seg.skip(1) =~= cur + seg);
    }
}

/// Splitting the canonical joined body, with an optional trailing
/// separator, recovers exactly the segments it was built from.
pub proof fn lemma_split_join(ss: Seq<Seq<char>>, tail: Seq<char>)
    requires
        segs_wf(ss),
        tail.len() == 0 || tail == seq!['/'],
    ensures
        split_from(join_segs(ss) + tail, Seq::empty()) == ss,
    decreases ss.len(),
{
    if ss.len() == 0 {
        assert(join_segs(ss) + tail =~= tail);
        if tail.len() == 0 {
            assert(split_from(tail, Seq::<char>::empty()) =~= ss);
        } else {
            assert(tail[0] == '/');
            assert(tail.skip(1) =~= Seq::<char>::empty());
            assert(split_from(tail, Seq::<char>::empty()) == split_from(
                Seq::<char>::empty(),
                Seq::<char>::empty(),
            ));
            assert(split_from(Seq::<char>::empty(), Seq::<char>::empty())
                =~= Seq::<Seq<char>>::empty());
            assert(split_from(tail, Seq::<char>::empty()) =~= ss);
        }
    } else if ss.len() == 1 {
        assert(seg_wf(ss[0]));
        assert(join_segs(ss) == ss[0]);
        lemma_split_seg_prefix(ss[0], tail, Seq::<char>::empty());
        assert(Seq::<char>::empty() + ss[0] =~= ss[0]);
        if tail.len() == 0 {
            assert(split_from(tail, ss[0]) == seq![ss[0]]);
        } else {
            assert(tail[0] == '/');
            assert(tail.skip(1) =~= Seq::<char>::empty());
            assert(split_from(tail, ss[0]) == seq![ss[0]] + split_from(
                Seq::<char>::empty(),
                Seq::<char>::empty(),
            ));
            assert(seq![ss[0]] + Seq::<Seq<char>>::empty() =~= seq![ss[0]]);
        }
        assert(seq![ss[0]] =~= ss);
    } else {
        assert(seg_wf(ss[0]));
        let rest1 = seq!['/'] + join_segs(ss.skip(1)) + tail;
        assert(join_segs(ss) + tail =~= ss[0] + rest1);
        lemma_split_seg_prefix(ss[0], rest1, Seq::<char>::empty());
        assert(Seq::<char>::empty() + ss[0] =~= ss[0]);
        assert(rest1[0] == '/');
        assert(ss[0].len() > 0);
        assert(rest1.skip(1) =~= join_segs(ss.skip(1)) + tail);
        assert(segs_wf(ss.skip(1)));
        lemma_split_join(ss.skip(1), tail);
        assert(split_from(rest1, ss[0]) == seq![ss[0]] + ss.skip(1));
        assert(seq![ss[0]] + ss.skip(1) =~= ss);
    }
}

/// The joined body of a non-empty segment sequence starts with the first
/// character of the first segment.
pub proof fn lemma_join_first(ss: Seq<Seq<char>>)
    requires
        segs_wf(ss),
        ss.len() >= 1,
    ensures
        join_segs(ss).len() >= 1,
        join_segs(ss)[0] == ss[0][0],
{
    assert(seg_wf(ss[0]));
    if ss.len() == 1 {
    } else {
        assert(join_segs(ss) == ss[0] + seq!['/'] + join_segs(ss.skip(1)));
        assert((ss[0] + seq!['/'] + join_segs(ss.skip(1)))[0] == ss[0][0]);
    }
}

/// Round-trip: rendering a well-formed path value and parsing the text
/// back yields the value itself.
///
/// Two degenerate shapes are excluded, because the canonical text cannot
/// carry them: a segmentless value whose absolute and directory flags
/// differ (its rendering is `""` or `/`, which reparse with equal flags),
/// and a file value whose last segment itself ends in `..` (its rendering
/// ends in `..`, which reparses as a directory).
pub proof fn lemma_round_trip(m: PathModel)
    requires
        model_wf(m),
        m.segments.len() == 0 ==> m.absolute == m.directory,
        m.segments.len() > 0 && !m.directory ==> !ends_with_up(m.segments.last()),
    ensures
        spec_parse(spec_display(m)) == m,
{
    let ss = m.segments;
    let root: Seq<char> = if m.absolute {
        seq!['/']
    } else {
        Seq::<char>::empty()
    };
    let trail: Seq<char> = if m.directory {
        seq!['/']
    } else {
        Seq::<char>::empty()
    };
    let d = spec_display(m);
    if ss.len() == 0 {
        if !m.absolute {
            assert(d =~= Seq::<char>::empty());
            assert(split_from(d, Seq::<char>::empty()) =~= ss);
            assert(spec_parse(d) =~= m);
        } else {
            assert(d =~= seq!['/', '/']);
            assert(d[0] == '/');
            assert(d[1] == '/');
            assert(d.skip(1) =~= seq!['/']);
            assert(seq!['/'].skip(1) =~= Seq::<char>::empty());
            assert(split_from(d, Seq::<char>::empty()) == split_from(
                seq!['/'],
                Seq::<char>::empty(),
            ));
            assert(split_from(seq!['/'], Seq::<char>::empty()) == split_from(
                Seq::<char>::empty(),
                Seq::<char>::empty(),
            ));
            assert(split_from(Seq::<char>::empty(), Seq::<char>::empty())
                =~= Seq::<Seq<char>>::empty());
            assert(split_from(d, Seq::<char>::empty()) =~= ss);
            assert(spec_parse(d) =~= m);
        }
    } else {
        lemma_join_first(ss);
        lemma_split_join(ss, trail);
        if m.absolute {
            assert(d =~= seq!['/'] + (join_segs(ss) + trail));
            assert(d[0] == '/');
            assert(d.skip(1) =~= join_segs(ss) + trail);
            assert(split_segs(d) == split_from(d.skip(1), Seq::<char>::empty()));
            assert(split_segs(d) == ss);
            assert(is_sep(d[0]));
        } else {
            assert(d =~= join_segs(ss) + trail);
            assert(split_segs(d) == ss);
            assert(d[0] == join_segs(ss)[0]);
            assert(!is_sep(d[0]));
        }
        if m.directory {
            assert(d[d.len() - 1] == '/');
            assert(is_sep(d[d.len() - 1]));
        } else {
            let l = ss.last();
            let dl = ss.drop_last();
            assert(seg_wf(l));
            assert(dl.push(l) =~= ss);
            lemma_join_segs_push(dl, l);
            if dl.len() == 0 {
                assert(join_segs(ss) == l);
                if m.absolute {
                    assert(d =~= seq!['/'] + l);
                    assert(d.len() == 1 + l.len());
                    assert(d[d.len() - 1] == l[l.len() - 1]);
                    if l.len() >= 2 {
                        assert(d[d.len() - 2] == l[l.len() - 2]);
                    } else {
                        assert(d[d.len() - 2] == '/');
                    }
                } else {
                    assert(d =~= l);
                }
            } else {
                assert(join_segs(ss) == join_segs(dl) + seq!['/'] + l);
                let pre = root + (join_segs(dl) + seq!['/']);
                assert(d =~= pre + l);
                assert(pre.len() >= 1);
                assert(pre[pre.len() - 1] == '/');
                assert(d.len() == pre.len() + l.len());
                assert(d[d.len() - 1] == l[l.len() - 1]);
                if l.len() >= 2 {
                    assert(d[d.len() - 2] == l[l.len() - 2]);
                } else {
                    assert(d[d.len() - 2] == pre[pre.len() - 1]);
                }
            }
            assert(!is_sep(d[d.len() - 1]));
            assert(!ends_with_up(d));
        }
        assert(spec_parse(d) =~= m);
    }
}

/// Directory classification: a text parses as a directory exactly when it
/// ends in a separator of either style or in the literal `..`; every other
/// text parses as a file.
pub proof fn lemma_directory_classification(s: Seq<char>)
    ensures
        spec_parse(s).directory == ((s.len() > 0 && is_sep(s[s.len() - 1])) || ends_with_up(s)),
{
}

/// Merging onto the identity path yields the addition itself, whenever the
/// addition has any segments; an addition without segments leaves the base
/// untouched.
pub proof fn lemma_merge_identity(add: PathModel)
    ensures
        spec_merge(identity_model(), add) == if add.segments.len() > 0 {
            add
        } else {
            identity_model()
        },
{
}

} // verus!
