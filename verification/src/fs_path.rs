//! Filesystem paths, modeled as sequences of components, and the
//! root-prefix substitution that maps a source path to its mirrored
//! destination path.

use vstd::prelude::*;

verus! {

/// A filesystem path, held as its ordered list of components.
pub struct FsPath {
    pub parts: Vec<String>,
}

impl View for FsPath {
    type V = Seq<Seq<char>>;

    open spec fn view(&self) -> Seq<Seq<char>> {
        Seq::new(self.parts@.len(), |i: int| self.parts@[i]@)
    }
}

/// `pre` is a (component-wise) prefix of `full`.
pub open spec fn is_prefix(pre: Seq<Seq<char>>, full: Seq<Seq<char>>) -> bool {
    pre.len() <= full.len() && pre == full.subrange(0, pre.len() as int)
}

/// The mirrored path of `p`: the source root prefix replaced by the target root.
pub open spec fn mirror_view(
    source: Seq<Seq<char>>,
    target: Seq<Seq<char>>,
    p: Seq<Seq<char>>,
) -> Seq<Seq<char>>
    recommends
        is_prefix(source, p),
{
    target + p.subrange(source.len() as int, p.len() as int)
}

/// The views of a list of paths.
pub open spec fn paths_view(s: Seq<FsPath>) -> Seq<Seq<Seq<char>>> {
    Seq::new(s.len(), |i: int| s[i]@)
}

impl Clone for FsPath {
    fn clone(&self) -> (res: Self)
        ensures
            res@ == self@,
    {
        let parts = self.parts.clone();
        proof {
            assert(Seq::new(parts@.len(), |i: int| parts@[i]@) =~= self@);
        }
        FsPath { parts }
    }
}

impl FsPath {
    /// True exactly when `prefix` is a component-wise prefix of `self`.
    pub fn starts_with(&self, prefix: &FsPath) -> (r: bool)
        ensures
            r == is_prefix(prefix@, self@),
    {
        let n = prefix.parts.len();
        if n > self.parts.len() {
            return false;
        }
        let mut i: usize = 0;
        while i < n
            invariant
                n == prefix.parts.len(),
                n <= self.parts.len(),
                i <= n,
                forall|j: int| 0 <= j < i ==> prefix@[j] == self@[j],
            decreases n - i,
        {
            if !(self.parts[i] == prefix.parts[i]) {
                proof {
                    let sub = self@.subrange(0, prefix@.len() as int);
                    assert(sub[i as int] == self@[i as int]);
                }
                return false;
            }
            i += 1;
        }
        proof {
            assert(prefix@ =~= self@.subrange(0, prefix@.len() as int));
        }
        true
    }

    /// The remainder of `self` after its `prefix`; `None` when `prefix`
    /// is not a prefix of `self`.
    pub fn strip_prefix(&self, prefix: &FsPath) -> (r: Option<FsPath>)
        ensures
            r is Some <==> is_prefix(prefix@, self@),
            r matches Some(rest) ==> rest@ == self@.subrange(
                prefix@.len() as int,
                self@.len() as int,
            ),
    {
        if !self.starts_with(prefix) {
            return None;
        }
        let n = prefix.parts.len();
        let mut parts: Vec<String> = Vec::new();
        let mut i: usize = n;
        while i < self.parts.len()
            invariant
                n <= i <= self.parts.len(),
                parts@.len() == i - n,
                forall|j: int| 0 <= j < parts@.len() ==> parts@[j]@ == self@[n + j],
            decreases self.parts.len() - i,
        {
            parts.push(self.parts[i].clone());
            i += 1;
        }
        let rest = FsPath { parts };
        proof {
            assert(rest@ =~= self@.subrange(prefix@.len() as int, self@.len() as int));
        }
        Some(rest)
    }

    /// `self` extended by the components of `rel`.
    pub fn join(&self, rel: &FsPath) -> (r: FsPath)
        ensures
            r@ == self@ + rel@,
    {
        let mut parts = self.parts.clone();
        let mut i: usize = 0;
        while i < rel.parts.len()
            invariant
                i <= rel.parts.len(),
                parts@.len() == self.parts@.len() + i,
                forall|j: int| 0 <= j < self.parts@.len() ==> parts@[j]@ == self@[j],
                forall|j: int| 0 <= j < i ==> parts@[self.parts@.len() + j]@ == rel@[j],
            decreases rel.parts.len() - i,
        {
            parts.push(rel.parts[i].clone());
            i += 1;
        }
        let r = FsPath { parts };
        proof {
            assert(r@ =~= self@ + rel@);
        }
        r
    }
}

/// The destination path that mirrors `file`: `file` with the `source`
/// root prefix replaced by `target`. `None` when `file` does not lie
/// under `source`.
pub fn mirror_path(file: &FsPath, source: &FsPath, target: &FsPath) -> (r: Option<FsPath>)
    ensures
        r is Some <==> is_prefix(source@, file@),
        r matches Some(dst) ==> dst@ == mirror_view(source@, target@, file@),
{
    match file.strip_prefix(source) {
        None => None,
        Some(rest) => Some(target.join(&rest)),
    }
}

} // verus!
