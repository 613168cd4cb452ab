//! The `OsPath` value type and its verified operations.

use vstd::prelude::*;
use vstd::string::StrSliceExecFns;
use vstd::string::StringExecFns;

use crate::model::{
    PathModel, identity_model, is_sep, up_seg, seg_wf, segs_wf, split_from, split_segs,
    spec_parse, drop_last_seg, merge_rest, spec_merge, spec_resolve, join_segs, native_text,
    spec_display, last_dot, spec_extension, spec_parent, lemma_join_segs_push,
};
use crate::native;
use crate::native::{pathbuf_text, path_text};

verus! {

/// An intelligent path value usable in place of `std::path::PathBuf`.
///
/// `components` never holds an empty string or a raw separator; `path` is
/// a native cache of the canonical form, rebuilt on every change.
#[derive(Clone, Debug, PartialEq)]
pub struct OsPath {
    pub components: Vec<String>,
    pub absolute: bool,
    pub directory: bool,
    pub path: std::path::PathBuf,
}

impl View for OsPath {
    type V = PathModel;

    open spec fn view(&self) -> PathModel {
        PathModel {
            segments: self.components.deep_view(),
            absolute: self.absolute,
            directory: self.directory,
        }
    }
}

/// Recognizes either separator style.
fn is_sep_char(c: char) -> (r: bool)
    ensures
        r == is_sep(c),
{
    c == '/' || c == '\\'
}

/// Recognizes the traversal marker `..`.
fn seg_is_up(s: &String) -> (r: bool)
    ensures
        r == (s@ == up_seg()),
{
    let n = s.as_str().unicode_len();
    if n == 2 {
        let r = s.as_str().get_char(0) == '.' && s.as_str().get_char(1) == '.';
        proof {
            if r {
                assert(s@ =~= up_seg());
            }
        }
        r
    } else {
        proof {
            assert(up_seg().len() == 2);
        }
        false
    }
}

impl OsPath {
    /// The segments and flags never drift from the model's invariant: no
    /// segment is empty or holds a separator character.
    pub open spec fn wf(&self) -> bool {
        segs_wf(self@.segments)
    }

    /// The native cache holds exactly the canonical text of the value: the
    /// root marker when absolute, then the segments joined by the native
    /// separator.  Every constructor establishes this and every operation
    /// re-establishes it.
    pub open spec fn cache_in_sync(&self) -> bool {
        pathbuf_text(self.path) == native_text(self@)
    }

    /// The empty, relative path: the identity of `join` and `push`.
    pub fn new() -> (r: Self)
        ensures
            r@ == identity_model(),
            r.wf(),
            r.cache_in_sync(),
    {
        let r = OsPath {
            components: Vec::new(),
            absolute: false,
            directory: false,
            path: native::pathbuf_new(),
        };
        proof {
            assert(r@ =~= identity_model());
            assert(native_text(r@) =~= Seq::<char>::empty());
        }
        r
    }

    /// Rebuilds the native cache from the segments and the absolute flag:
    /// the handle's text becomes the root marker, when absolute, followed
    /// by the segments joined by the native separator.
    fn build_pathbuf(components: &Vec<String>, absolute: bool) -> (r: std::path::PathBuf)
        requires
            segs_wf(components.deep_view()),
        ensures
            pathbuf_text(r) == (if absolute {
                seq!['/']
            } else {
                Seq::<char>::empty()
            }) + join_segs(components.deep_view()),
    {
        let ghost root: Seq<char> = if absolute {
            seq!['/']
        } else {
            Seq::<char>::empty()
        };
        proof {
            reveal_strlit("/");
            assert("/"@ =~= seq!['/']);
        }
        let mut p = native::pathbuf_new();
        if absolute {
            native::pathbuf_push(&mut p, "/");
            proof {
                assert(pathbuf_text(p) == "/"@);
            }
        }
        proof {
            assert(components.deep_view().take(0) =~= Seq::<Seq<char>>::empty());
            assert(root + join_segs(Seq::<Seq<char>>::empty()) =~= root);
        }
        let mut i: usize = 0;
        while i < components.len()
            invariant
                i <= components.len(),
                segs_wf(components.deep_view()),
                root == if absolute {
                    seq!['/']
                } else {
                    Seq::<char>::empty()
                },
                pathbuf_text(p) == root + join_segs(components.deep_view().take(i as int)),
                i == 0 ==> pathbuf_text(p) == root,
                i > 0 ==> pathbuf_text(p).len() > 0 && !is_sep(pathbuf_text(p).last()),
            decreases components.len() - i,
        {
            let ghost dv = components.deep_view();
            let ghost pre = dv.take(i as int);
            let ghost old_text = pathbuf_text(p);
            let ghost seg = dv[i as int];
            proof {
                assert(seg_wf(seg));
                assert(seg[0] != '/');
            }
            native::pathbuf_push(&mut p, components[i].as_str());
            proof {
                lemma_join_segs_push(pre, seg);
                assert(pre.push(seg) =~= dv.take(i as int + 1));
                if i == 0 {
                    assert(pathbuf_text(p) == old_text + seg);
                    assert(old_text + seg =~= root + join_segs(dv.take(i as int + 1)));
                } else {
                    assert(pathbuf_text(p) == old_text + seq!['/'] + seg);
                    assert(old_text + seq!['/'] + seg =~= root + join_segs(dv.take(i as int + 1)));
                }
                assert(pathbuf_text(p).last() == seg.last());
                assert(!is_sep(pathbuf_text(p).last()));
            }
            i += 1;
        }
        proof {
            assert(components.deep_view().take(components.len() as int)
                =~= components.deep_view());
        }
        p
    }

    /// Parses a textual fragment: separators of both styles delimit the
    /// segments, runs of separators collapse, a leading separator makes
    /// the path absolute, and a trailing separator or a trailing `..`
    /// makes it a directory.
    pub fn build_self(path: &str) -> (r: Self)
        ensures
            r@ == spec_parse(path@),
            r.wf(),
            r.cache_in_sync(),
    {
        let n = path.unicode_len();
        let absolute = n > 0 && is_sep_char(path.get_char(0));
        let directory = (n > 0 && is_sep_char(path.get_char(n - 1))) || (n >= 2 && path.get_char(
            n - 1,
        ) == '.' && path.get_char(n - 2) == '.');
        let mut components: Vec<String> = Vec::new();
        let mut start: usize = 0;
        let mut i: usize = 0;
        proof {
            assert(path@.skip(0) =~= path@);
            assert(path@.subrange(0, 0) =~= Seq::<char>::empty());
        }
        while i < n
            invariant
                n == path@.len(),
                start <= i <= n,
                forall|k: int| start <= k < i ==> !is_sep(#[trigger] path@[k]),
                segs_wf(components.deep_view()),
                split_segs(path@) == components.deep_view() + split_from(
                    path@.skip(i as int),
                    path@.subrange(start as int, i as int),
                ),
            decreases n - i,
        {
            let ghost cur = path@.subrange(start as int, i as int);
            let ghost pre = components.deep_view();
            proof {
                assert(path@.skip(i as int)[0] == path@[i as int]);
                assert(path@.skip(i as int).skip(1) =~= path@.skip(i as int + 1));
            }
            if is_sep_char(path.get_char(i)) {
                if start < i {
                    let seg = path.substring_char(start, i).to_owned();
                    components.push(seg);
                    proof {
                        assert(seg@ == cur);
                        assert(components.deep_view() =~= pre.push(cur));
                        assert(split_from(path@.skip(i as int), cur) == seq![cur] + split_from(
                            path@.skip(i as int + 1),
                            Seq::<char>::empty(),
                        ));
                        assert(pre + (seq![cur] + split_from(
                            path@.skip(i as int + 1),
                            Seq::<char>::empty(),
                        )) =~= pre.push(cur) + split_from(
                            path@.skip(i as int + 1),
                            Seq::<char>::empty(),
                        ));
                    }
                } else {
                    proof {
                        assert(cur =~= Seq::<char>::empty());
                    }
                }
                start = i + 1;
                proof {
                    assert(path@.subrange(start as int, start as int) =~= Seq::<char>::empty());
                }
            } else {
                proof {
                    assert(cur.push(path@[i as int]) =~= path@.subrange(
                        start as int,
                        i as int + 1,
                    ));
                }
            }
            i += 1;
        }
        let ghost cur = path@.subrange(start as int, i as int);
        if start < n {
            let seg = path.substring_char(start, n).to_owned();
            let ghost pre = components.deep_view();
            components.push(seg);
            proof {
                assert(path@.skip(n as int) =~= Seq::<char>::empty());
                assert(split_from(Seq::<char>::empty(), cur) == seq![cur]);
                assert(components.deep_view() =~= pre.push(cur));
                assert(pre + seq![cur] =~= pre.push(cur));
            }
        } else {
            proof {
                assert(path@.skip(n as int) =~= Seq::<char>::empty());
                assert(cur =~= Seq::<char>::empty());
                assert(split_from(Seq::<char>::empty(), Seq::<char>::empty())
                    == Seq::<Seq<char>>::empty());
                assert(components.deep_view() + Seq::<Seq<char>>::empty()
                    =~= components.deep_view());
            }
        }
        let pb = Self::build_pathbuf(&components, absolute);
        let r = OsPath { components, absolute, directory, path: pb };
        proof {
            assert(r@ =~= spec_parse(path@));
        }
        r
    }

    /// Merges `second` into `first` as [`spec_merge`] describes: a `..`
    /// pops the accumulated segments, anything else is appended, the
    /// addition's absoluteness is ignored, and a leading `..` onto a file
    /// path first discards the file name.  The native cache is left for
    /// the caller to rebuild.
    fn merge_paths(first: &mut Self, second: Self)
        requires
            old(first).wf(),
            second.wf(),
        ensures
            final(first).wf(),
            final(first)@ == spec_merge(old(first)@, second@),
    {
        let ghost target = spec_merge(old(first)@, second@);
        if second.components.len() == 0 {
            proof {
                assert(second@.segments.len() == 0);
            }
            return ;
        }
        if first.components.len() == 0 && !first.absolute {
            proof {
                assert(old(first)@.segments.len() == 0);
            }
            *first = second;
            return ;
        }
        let ghost base_segs = old(first)@.segments;
        let ghost add_segs = second@.segments;
        let mut idx: usize = 0;
        if !first.directory && seg_is_up(&second.components[0]) {
            proof {
                let pre = first.components.deep_view();
                if pre.len() > 0 {
                    assert(pre.subrange(0, pre.len() - 1) =~= drop_last_seg(pre));
                }
            }
            first.components.pop();
            idx = 1;
            proof {
                assert(first.components.deep_view() =~= drop_last_seg(base_segs));
                assert(target.segments == merge_rest(
                    drop_last_seg(base_segs),
                    add_segs.skip(1),
                ));
            }
        } else {
            proof {
                assert(add_segs.skip(0) =~= add_segs);
            }
        }
        while idx < second.components.len()
            invariant
                idx <= second.components.len(),
                second.wf(),
                segs_wf(first.components.deep_view()),
                first.absolute == old(first).absolute,
                target == spec_merge(old(first)@, second@),
                target.segments == merge_rest(
                    first.components.deep_view(),
                    second@.segments.skip(idx as int),
                ),
                target.absolute == old(first).absolute,
                target.directory == second.directory,
            decreases second.components.len() - idx,
        {
            let ghost acc = first.components.deep_view();
            let ghost rest = second@.segments.skip(idx as int);
            proof {
                assert(rest[0] == second@.segments[idx as int]);
                assert(rest.skip(1) =~= second@.segments.skip(idx as int + 1));
            }
            let c = &second.components[idx];
            if seg_is_up(c) {
                proof {
                    if acc.len() > 0 {
                        assert(acc.subrange(0, acc.len() - 1) =~= drop_last_seg(acc));
                    }
                }
                first.components.pop();
                proof {
                    assert(first.components.deep_view() =~= drop_last_seg(acc));
                }
            } else {
                first.components.push(c.clone());
                proof {
                    assert(first.components.deep_view() =~= acc.push(second@.segments[idx as int]));
                    assert(seg_wf(second@.segments[idx as int]));
                }
            }
            idx += 1;
        }
        proof {
            assert(second@.segments.skip(second.components.len() as int)
                =~= Seq::<Seq<char>>::empty());
        }
        first.directory = second.directory;
        proof {
            assert(first@ =~= target);
        }
    }

    /// A new path: this one with the parsed fragment merged onto it.
    pub fn join(&self, path: &str) -> (r: Self)
        requires
            self.wf(),
        ensures
            r@ == spec_merge(self@, spec_parse(path@)),
            r.wf(),
            r.cache_in_sync(),
    {
        let comps = self.components.clone();
        proof {
            assert(comps@ =~= self.components@);
            assert(comps.deep_view() =~= self.components.deep_view());
        }
        let mut new_self = OsPath {
            components: comps,
            absolute: self.absolute,
            directory: self.directory,
            path: native::pathbuf_new(),
        };
        proof {
            assert(new_self@ =~= self@);
        }
        let second = Self::build_self(path);
        Self::merge_paths(&mut new_self, second);
        let pb = Self::build_pathbuf(&new_self.components, new_self.absolute);
        new_self.path = pb;
        new_self
    }

    /// Merges the parsed fragment onto this path in place.
    pub fn push(&mut self, path: &str)
        requires
            old(self).wf(),
        ensures
            final(self).wf(),
            final(self)@ == spec_merge(old(self)@, spec_parse(path@)),
            final(self).cache_in_sync(),
    {
        let second = Self::build_self(path);
        Self::merge_paths(self, second);
        let pb = Self::build_pathbuf(&self.components, self.absolute);
        self.path = pb;
    }

    /// Collapses every `..` against the segment before it, left to right;
    /// popping past the start is a no-op.  Traversal is never resolved
    /// implicitly: a caller that wants `..` collapsed must ask for it.
    pub fn resolve(&mut self)
        requires
            old(self).wf(),
        ensures
            final(self).wf(),
            final(self)@.segments == spec_resolve(old(self)@.segments),
            final(self)@.absolute == old(self)@.absolute,
            final(self)@.directory == old(self)@.directory,
            final(self).cache_in_sync(),
    {
        let mut new_vec: Vec<String> = Vec::new();
        let mut i: usize = 0;
        proof {
            assert(old(self)@.segments.skip(0) =~= old(self)@.segments);
            assert(Seq::<Seq<char>>::empty() =~= new_vec.deep_view());
        }
        while i < self.components.len()
            invariant
                i <= self.components.len(),
                *self == *old(self),
                old(self).wf(),
                segs_wf(new_vec.deep_view()),
                spec_resolve(old(self)@.segments) == merge_rest(
                    new_vec.deep_view(),
                    old(self)@.segments.skip(i as int),
                ),
            decreases self.components.len() - i,
        {
            let ghost acc = new_vec.deep_view();
            let ghost rest = old(self)@.segments.skip(i as int);
            proof {
                assert(rest[0] == old(self)@.segments[i as int]);
                assert(rest.skip(1) =~= old(self)@.segments.skip(i as int + 1));
            }
            let c = &self.components[i];
            if seg_is_up(c) {
                proof {
                    if acc.len() > 0 {
                        assert(acc.subrange(0, acc.len() - 1) =~= drop_last_seg(acc));
                    }
                }
                new_vec.pop();
                proof {
                    assert(new_vec.deep_view() =~= drop_last_seg(acc));
                }
            } else {
                new_vec.push(c.clone());
                proof {
                    assert(new_vec.deep_view() =~= acc.push(old(self)@.segments[i as int]));
                    assert(seg_wf(old(self)@.segments[i as int]));
                }
            }
            i += 1;
        }
        proof {
            assert(old(self)@.segments.skip(self.components.len() as int)
                =~= Seq::<Seq<char>>::empty());
        }
        self.components = new_vec;
        let pb = Self::build_pathbuf(&self.components, self.absolute);
        self.path = pb;
    }

    /// True when the original text began with the root marker.
    pub fn is_absolute(&self) -> (r: bool)
        ensures
            r == self@.absolute,
    {
        self.absolute
    }

    /// True when the last item is a file, that is, not a directory.
    pub fn is_file(&self) -> (r: bool)
        ensures
            r == !self@.directory,
    {
        !self.directory
    }

    /// True when the last item is a directory.
    pub fn is_dir(&self) -> (r: bool)
        ensures
            r == self@.directory,
    {
        self.directory
    }

    /// The last segment, or nothing when there are no segments.
    pub fn name(&self) -> (r: Option<&String>)
        ensures
            match r {
                Some(s) => self@.segments.len() > 0 && s@ == self@.segments.last(),
                None => self@.segments.len() == 0,
            },
    {
        if self.components.len() > 0 {
            Some(&self.components[self.components.len() - 1])
        } else {
            None
        }
    }

    /// The characters of the last segment after its final `.`; absent for
    /// a directory, for an empty path, and for a name with no dot at all.
    pub fn extension(&self) -> (r: Option<String>)
        ensures
            r is Some <==> spec_extension(self@) is Some,
            r is Some ==> r.unwrap()@ == spec_extension(self@).unwrap(),
    {
        if self.directory {
            return None;
        }
        if self.components.len() == 0 {
            return None;
        }
        let s: &String = &self.components[self.components.len() - 1];
        proof {
            assert(s@ == self@.segments.last());
        }
        let n = s.as_str().unicode_len();
        let mut j = n;
        proof {
            assert(s@.subrange(0, n as int) =~= s@);
        }
        while j > 0
            invariant
                j <= n,
                n == s@.len(),
                !self@.directory,
                self@.segments.len() > 0,
                s@ == self@.segments.last(),
                last_dot(s@) == last_dot(s@.subrange(0, j as int)),
            decreases j,
        {
            let ghost pre = s@.subrange(0, j as int);
            proof {
                assert(pre.len() == j);
                assert(pre[j - 1] == s@[j - 1]);
            }
            if s.as_str().get_char(j - 1) == '.' {
                proof {
                    assert(last_dot(pre) == j - 1);
                }
                let ext = s.as_str().substring_char(j, n).to_owned();
                proof {
                    assert(ext@ == s@.subrange(j as int, n as int));
                }
                return Some(ext);
            }
            proof {
                assert(pre.drop_last() =~= s@.subrange(0, j as int - 1));
                assert(last_dot(pre) == last_dot(pre.drop_last()));
            }
            j -= 1;
        }
        proof {
            assert(s@.subrange(0, 0) =~= Seq::<char>::empty());
            assert(last_dot(Seq::<char>::empty()) == -1);
        }
        None
    }

    /// A copy with the last segment removed and the directory flag forced;
    /// absent for the empty path and for a relative single-segment path.
    /// An absolute single-segment path keeps its bare root as parent.
    pub fn parent(&self) -> (r: Option<Self>)
        requires
            self.wf(),
        ensures
            r is Some <==> spec_parent(self@) is Some,
            r is Some ==> r.unwrap()@ == spec_parent(self@).unwrap() && r.unwrap().wf()
                && r.unwrap().cache_in_sync(),
    {
        if self.components.len() == 0 {
            return None;
        }
        if self.components.len() < 2 && !self.absolute {
            return None;
        }
        let mut comps = self.components.clone();
        proof {
            assert(comps@ =~= self.components@);
        }
        comps.truncate(self.components.len() - 1);
        proof {
            assert(comps.deep_view() =~= self@.segments.drop_last());
        }
        let pb = Self::build_pathbuf(&comps, self.absolute);
        let r = OsPath { components: comps, absolute: self.absolute, directory: true, path: pb };
        proof {
            assert(r@ =~= spec_parent(self@).unwrap());
        }
        Some(r)
    }

    /// The canonical native rendering: the root marker when absolute, the
    /// segments joined by the native separator, and a trailing separator
    /// when the path is a directory.
    pub fn build_string(&self) -> (r: String)
        ensures
            r@ == spec_display(self@),
    {
        let ghost root: Seq<char> = if self.absolute {
            seq!['/']
        } else {
            Seq::<char>::empty()
        };
        proof {
            reveal_strlit("/");
            assert("/"@ =~= seq!['/']);
        }
        let mut r = String::new();
        if self.absolute {
            r.append("/");
        }
        proof {
            assert(self@.segments.take(0) =~= Seq::<Seq<char>>::empty());
            assert(r@ =~= root + join_segs(self@.segments.take(0)));
        }
        let mut i: usize = 0;
        while i < self.components.len()
            invariant
                i <= self.components.len(),
                root == if self@.absolute {
                    seq!['/']
                } else {
                    Seq::<char>::empty()
                },
                "/"@ == seq!['/'],
                r@ == root + join_segs(self@.segments.take(i as int)),
            decreases self.components.len() - i,
        {
            let ghost pre = self@.segments.take(i as int);
            if i > 0 {
                r.append("/");
            }
            r.append(self.components[i].as_str());
            proof {
                lemma_join_segs_push(pre, self@.segments[i as int]);
                assert(pre.push(self@.segments[i as int]) =~= self@.segments.take(i as int + 1));
                if i == 0 {
                    assert(pre.len() == 0);
                    assert(r@ =~= root + join_segs(self@.segments.take(i as int + 1)));
                } else {
                    assert(r@ =~= root + (join_segs(pre) + seq!['/'] + self@.segments[i as int]));
                    assert(root + (join_segs(pre) + seq!['/'] + self@.segments[i as int]) =~= root
                        + join_segs(self@.segments.take(i as int + 1)));
                }
            }
            i += 1;
        }
        if self.directory {
            r.append("/");
        }
        proof {
            assert(self@.segments.take(self.components.len() as int) =~= self@.segments);
            assert(r@ =~= spec_display(self@));
        }
        r
    }

    /// The native handle as an owned `PathBuf`, for real filesystem APIs:
    /// a copy of the cache, holding the canonical native text.
    pub fn to_pathbuf(&self) -> (r: std::path::PathBuf)
        ensures
            self.cache_in_sync() ==> pathbuf_text(r) == native_text(self@),
    {
        self.path.clone()
    }

    /// The native handle as a borrowed `Path`, holding the canonical
    /// native text.
    pub fn to_path(&self) -> (r: &std::path::Path)
        ensures
            self.cache_in_sync() ==> path_text(r) == native_text(self@),
    {
        native::pathbuf_as_path(&self.path)
    }

    /// Whether anything lives at this path on the host filesystem.  The
    /// handle queried is the cache, whose text is the canonical native
    /// form whenever [`OsPath::cache_in_sync`] holds, as it does for every
    /// value this library constructs.  The answer is the filesystem's
    /// alone: nothing is stated of it.
    pub fn exists_on_disk(&self) -> bool {
        native::pathbuf_exists(&self.path)
    }
}

impl From<&str> for OsPath {
    /// Parses the text, exactly as [`OsPath::build_self`] does.
    fn from(s: &str) -> (r: Self)
        ensures
            r@ == spec_parse(s@),
            r.wf(),
            r.cache_in_sync(),
    {
        OsPath::build_self(s)
    }
}

impl vstd::std_specs::convert::FromSpecImpl<&str> for OsPath {
    open spec fn obeys_from_spec() -> bool {
        false
    }

    open spec fn from_spec(v: &str) -> Self {
        arbitrary()
    }
}

impl From<String> for OsPath {
    /// Parses the text, exactly as [`OsPath::build_self`] does.
    fn from(s: String) -> (r: Self)
        ensures
            r@ == spec_parse(s@),
            r.wf(),
            r.cache_in_sync(),
    {
        OsPath::build_self(s.as_str())
    }
}

impl vstd::std_specs::convert::FromSpecImpl<String> for OsPath {
    open spec fn obeys_from_spec() -> bool {
        false
    }

    open spec fn from_spec(v: String) -> Self {
        arbitrary()
    }
}

impl From<&OsPath> for OsPath {
    /// An independent copy with the same segments, flags and native
    /// handle.
    fn from(p: &OsPath) -> (r: Self)
        ensures
            r@ == p@,
            p.cache_in_sync() ==> r.cache_in_sync(),
    {
        let comps = p.components.clone();
        proof {
            assert(comps@ =~= p.components@);
            assert(comps.deep_view() =~= p.components.deep_view());
        }
        let pb = p.path.clone();
        let r = OsPath {
            components: comps,
            absolute: p.absolute,
            directory: p.directory,
            path: pb,
        };
        proof {
            assert(r@ =~= p@);
        }
        r
    }
}

impl vstd::std_specs::convert::FromSpecImpl<&OsPath> for OsPath {
    open spec fn obeys_from_spec() -> bool {
        false
    }

    open spec fn from_spec(v: &OsPath) -> Self {
        arbitrary()
    }
}

impl From<std::path::PathBuf> for OsPath {
    /// Parses the handle's text, exactly as [`OsPath::build_self`] does.
    fn from(p: std::path::PathBuf) -> (r: Self)
        ensures
            r@ == spec_parse(pathbuf_text(p)),
            r.wf(),
            r.cache_in_sync(),
    {
        let text = native::pathbuf_to_text(&p);
        OsPath::build_self(text.as_str())
    }
}

impl vstd::std_specs::convert::FromSpecImpl<std::path::PathBuf> for OsPath {
    open spec fn obeys_from_spec() -> bool {
        false
    }

    open spec fn from_spec(v: std::path::PathBuf) -> Self {
        arbitrary()
    }
}

impl From<&std::path::PathBuf> for OsPath {
    /// Parses the handle's text, exactly as [`OsPath::build_self`] does.
    fn from(p: &std::path::PathBuf) -> (r: Self)
        ensures
            r@ == spec_parse(pathbuf_text(*p)),
            r.wf(),
            r.cache_in_sync(),
    {
        let text = native::pathbuf_to_text(p);
        OsPath::build_self(text.as_str())
    }
}

impl vstd::std_specs::convert::FromSpecImpl<&std::path::PathBuf> for OsPath {
    open spec fn obeys_from_spec() -> bool {
        false
    }

    open spec fn from_spec(v: &std::path::PathBuf) -> Self {
        arbitrary()
    }
}

impl Default for OsPath {
    /// The same value as [`OsPath::new`].
    fn default() -> (r: Self)
        ensures
            r@ == identity_model(),
            r.wf(),
            r.cache_in_sync(),
    {
        OsPath::new()
    }
}

} // verus!
