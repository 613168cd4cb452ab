//! The mathematical model of a path value.
//!
//! A path is modelled as a sequence of segments (each a sequence of
//! characters), an absolute flag and a directory flag.  The spec functions
//! here define what parsing, merging, resolving and rendering mean on that
//! model; the executable code in `path` is verified against them.

use vstd::prelude::*;

verus! {

/// The spec-level value of an `OsPath`: its segments and its two flags.
#[verifier::ext_equal]
pub ghost struct PathModel {
    pub segments: Seq<Seq<char>>,
    pub absolute: bool,
    pub directory: bool,
}

/// Both separator styles are recognized wherever a path is read.
pub open spec fn is_sep(c: char) -> bool {
    c == '/' || c == '\\'
}

/// The traversal marker `..` as a segment.
pub open spec fn up_seg() -> Seq<char> {
    seq!['.', '.']
}

/// A single segment is well-formed when it is non-empty and free of
/// separator characters.
pub open spec fn seg_wf(s: Seq<char>) -> bool {
    &&& s.len() > 0
    &&& forall|i: int| 0 <= i < s.len() ==> !is_sep(#[trigger] s[i])
}

/// Every segment of the sequence is well-formed.
pub open spec fn segs_wf(ss: Seq<Seq<char>>) -> bool {
    forall|i: int| 0 <= i < ss.len() ==> seg_wf(#[trigger] ss[i])
}

/// A model is well-formed when all its segments are.
pub open spec fn model_wf(m: PathModel) -> bool {
    segs_wf(m.segments)
}

/// The empty, non-absolute, non-directory path: the identity of `merge`.
pub open spec fn identity_model() -> PathModel {
    PathModel { segments: Seq::empty(), absolute: false, directory: false }
}

/// Splitting a character sequence at separators, carrying the segment
/// collected so far: empty fields (runs of separators) are discarded.
pub open spec fn split_from(s: Seq<char>, cur: Seq<char>) -> Seq<Seq<char>>
    decreases s.len(),
{
    if s.len() == 0 {
        if cur.len() == 0 {
            Seq::empty()
        } else {
            seq![cur]
        }
    } else if is_sep(s[0]) {
        if cur.len() == 0 {
            split_from(s.skip(1), Seq::empty())
        } else {
            seq![cur] + split_from(s.skip(1), Seq::empty())
        }
    } else {
        split_from(s.skip(1), cur.push(s[0]))
    }
}

/// The segments of a textual path: split at separators, empties dropped.
pub open spec fn split_segs(s: Seq<char>) -> Seq<Seq<char>> {
    split_from(s, Seq::empty())
}

/// Whether the text ends with the literal two-character sequence `..`.
pub open spec fn ends_with_up(s: Seq<char>) -> bool {
    s.len() >= 2 && s[s.len() - 1] == '.' && s[s.len() - 2] == '.'
}

/// What parsing a textual fragment yields: the text is absolute when it
/// starts with either separator, a directory when it ends with either
/// separator or with `..`, and its segments are the non-empty fields
/// between separators.
pub open spec fn spec_parse(s: Seq<char>) -> PathModel {
    PathModel {
        segments: split_segs(s),
        absolute: s.len() > 0 && is_sep(s[0]),
        directory: (s.len() > 0 && is_sep(s[s.len() - 1])) || ends_with_up(s),
    }
}

/// Dropping the last segment; popping past the start is a no-op.
pub open spec fn drop_last_seg(ss: Seq<Seq<char>>) -> Seq<Seq<char>> {
    if ss.len() == 0 {
        ss
    } else {
        ss.drop_last()
    }
}

/// The merge loop: each `..` of `rest` pops the accumulated sequence
/// (a no-op when it is already empty), every other segment is appended.
pub open spec fn merge_rest(acc: Seq<Seq<char>>, rest: Seq<Seq<char>>) -> Seq<Seq<char>>
    decreases rest.len(),
{
    if rest.len() == 0 {
        acc
    } else if rest[0] == up_seg() {
        merge_rest(drop_last_seg(acc), rest.skip(1))
    } else {
        merge_rest(acc.push(rest[0]), rest.skip(1))
    }
}

/// What merging `add` onto `base` yields.
///
/// An empty addition leaves the base untouched; anything merged onto the
/// identity path is taken whole (absoluteness included); otherwise the
/// addition's absoluteness is ignored — a "false root" never discards the
/// base — and a leading `..` added onto a file path first discards the
/// file name itself.  The result adopts the addition's directory flag.
pub open spec fn spec_merge(base: PathModel, add: PathModel) -> PathModel {
    if add.segments.len() == 0 {
        base
    } else if base.segments.len() == 0 && !base.absolute {
        add
    } else if !base.directory && add.segments[0] == up_seg() {
        PathModel {
            segments: merge_rest(drop_last_seg(base.segments), add.segments.skip(1)),
            absolute: base.absolute,
            directory: add.directory,
        }
    } else {
        PathModel {
            segments: merge_rest(base.segments, add.segments),
            absolute: base.absolute,
            directory: add.directory,
        }
    }
}

/// Resolving a segment sequence: every `..` pops the segment before it,
/// never underflowing.
pub open spec fn spec_resolve(ss: Seq<Seq<char>>) -> Seq<Seq<char>> {
    merge_rest(Seq::empty(), ss)
}

/// The canonical joined body of a path: segments separated by the native
/// separator.
pub open spec fn join_segs(ss: Seq<Seq<char>>) -> Seq<char>
    decreases ss.len(),
{
    if ss.len() == 0 {
        Seq::empty()
    } else if ss.len() == 1 {
        ss[0]
    } else {
        ss[0] + seq!['/'] + join_segs(ss.skip(1))
    }
}

/// The text of the native handle: a root marker when absolute, then the
/// joined segments.  The handle never carries the trailing separator that
/// the display form adds for directories.
pub open spec fn native_text(m: PathModel) -> Seq<char> {
    (if m.absolute {
        seq!['/']
    } else {
        Seq::<char>::empty()
    }) + join_segs(m.segments)
}

/// The canonical native rendering: a root marker when absolute, the joined
/// segments, and a trailing separator when the path is a directory.
pub open spec fn spec_display(m: PathModel) -> Seq<char> {
    native_text(m) + (if m.directory {
        seq!['/']
    } else {
        Seq::<char>::empty()
    })
}

/// No segment of the sequence is the traversal marker.
pub open spec fn no_up(ss: Seq<Seq<char>>) -> bool {
    forall|i: int| 0 <= i < ss.len() ==> #[trigger] ss[i] != up_seg()
}

/// The text with every `\` replaced by the native `/`; all other
/// characters kept.
pub open spec fn seps_to_native(s: Seq<char>) -> Seq<char> {
    Seq::new(
        s.len(),
        |i: int|
            if s[i] == '\\' {
                '/'
            } else {
                s[i]
            },
    )
}

/// Appending a segment extends the joined body by a separator and that
/// segment (no separator when the body was empty).
pub proof fn lemma_join_segs_push(ss: Seq<Seq<char>>, s: Seq<char>)
    ensures
        join_segs(ss.push(s)) == if ss.len() == 0 {
            s
        } else {
            join_segs(ss) + seq!['/'] + s
        },
    decreases ss.len(),
{
    if ss.len() == 0 {
        assert(ss.push(s).len() == 1);
        assert(ss.push(s)[0] == s);
    } else if ss.len() == 1 {
        assert(ss.push(s).skip(1) =~= seq![s]);
        assert(join_segs(seq![s]) == s);
        assert(ss.push(s)[0] == ss[0]);
    } else {
        assert(ss.push(s).skip(1) =~= ss.skip(1).push(s));
        lemma_join_segs_push(ss.skip(1), s);
        assert(ss.push(s)[0] == ss[0]);
        assert(join_segs(ss.push(s)) == ss[0] + seq!['/'] + (join_segs(ss.skip(1)) + seq!['/']
            + s));
        assert(ss[0] + seq!['/'] + (join_segs(ss.skip(1)) + seq!['/'] + s) =~= (ss[0] + seq!['/']
            + join_segs(ss.skip(1))) + seq!['/'] + s);
    }
}

/// The index of the last `.` of a name, or `-1` when it has none.
pub open spec fn last_dot(s: Seq<char>) -> int
    decreases s.len(),
{
    if s.len() == 0 {
        -1
    } else if s[s.len() - 1] == '.' {
        s.len() - 1
    } else {
        last_dot(s.drop_last())
    }
}

/// The extension of a name: the characters after its final `.`, absent
/// when the name has no dot at all.
pub open spec fn spec_ext_of(name: Seq<char>) -> Option<Seq<char>> {
    if last_dot(name) < 0 {
        None
    } else {
        Some(name.subrange(last_dot(name) + 1, name.len() as int))
    }
}

/// The extension of a path: only a file path with a dotted last segment
/// has one.
pub open spec fn spec_extension(m: PathModel) -> Option<Seq<char>> {
    if m.directory || m.segments.len() == 0 {
        None
    } else {
        spec_ext_of(m.segments.last())
    }
}

/// The parent of a path: the last segment removed and the directory flag
/// forced; absent for the empty path and for relative single-segment
/// paths, while an absolute single-segment path keeps its bare root as
/// parent.
pub open spec fn spec_parent(m: PathModel) -> Option<PathModel> {
    if m.segments.len() == 0 {
        None
    } else if m.segments.len() < 2 && !m.absolute {
        None
    } else {
        Some(
            PathModel {
                segments: m.segments.drop_last(),
                absolute: m.absolute,
                directory: true,
            },
        )
    }
}

} // verus!
