//! Resolving a slash-separated path, component by component, from a
//! directory listing.
//!
//! A path is cut at every `/`; what lies between two cuts is a component,
//! which may be empty. Each component is looked up by its name in the current
//! listing, first match first. Every component but the last must name a
//! directory, whose listing becomes the current one.

use vstd::prelude::*;
use vstd::string::StringSliceAdditionalSpecFns;
use crate::ext2::bytes::{
    bytes_eq, find_byte, lemma_len_fits, lemma_position_of, lemma_position_of_none, position_of,
};
use crate::ext2::dir::listing_view;
use crate::ext2::{Ext2, Ext2Error, Ext2View};

verus! {

/// The byte that separates the components of a path: `/`.
pub const SEPARATOR: u8 = 47;

/// The index of the first separator of `path` at or after `from`, or the
/// length of `path` where there is none.
pub open spec fn component_end(path: Seq<u8>, from: int) -> int {
    position_of(path, SEPARATOR, from)
}

/// The components of `path` from byte `from` on.
pub open spec fn components(path: Seq<u8>, from: int) -> Seq<Seq<u8>>
    decreases path.len() - from,
{
    let end = component_end(path, from);
    if from < 0 || from > end || end >= path.len() {
        seq![path.subrange(from, path.len() as int)]
    } else {
        seq![path.subrange(from, end)] + components(path, end + 1)
    }
}

/// The inode number of the first entry of `listing` at or after index `from`
/// that has the name `name`.
pub open spec fn lookup(listing: Seq<(usize, Seq<u8>)>, name: Seq<u8>, from: int) -> Option<usize>
    decreases listing.len() - from,
{
    if from < 0 || from >= listing.len() {
        None
    } else if listing[from].1 == name {
        Some(listing[from].0)
    } else {
        lookup(listing, name, from + 1)
    }
}

impl Ext2View {
    /// The listing of the directory with inode number `n`: `NotADirectory`
    /// where the inode's directory bit is not set.
    pub open spec fn enter(self, n: usize) -> Result<Seq<(usize, Seq<u8>)>, Ext2Error> {
        match self.inode(n as nat) {
            Err(e) => Err(e),
            Ok(inode) => if inode.type_perm.is_dir() {
                self.dir_listing(n as nat)
            } else {
                Err(Ext2Error::NotADirectory)
            },
        }
    }

    /// The inode number that the components `names` lead to from `listing`.
    pub open spec fn resolve(self, names: Seq<Seq<u8>>, listing: Seq<(usize, Seq<u8>)>) -> Result<
        usize,
        Ext2Error,
    >
        decreases names.len(),
    {
        if names.len() == 0 {
            Err(Ext2Error::NotFound)
        } else {
            match lookup(listing, names[0], 0) {
                None => Err(Ext2Error::NotFound),
                Some(n) => if names.len() == 1 {
                    Ok(n)
                } else {
                    match self.enter(n) {
                        Err(e) => Err(e),
                        Ok(next) => self.resolve(names.drop_first(), next),
                    }
                },
            }
        }
    }

    /// The inode number that `path` leads to from `listing`.
    pub open spec fn follow_path(self, path: Seq<u8>, listing: Seq<(usize, Seq<u8>)>) -> Result<
        usize,
        Ext2Error,
    > {
        self.resolve(components(path, 0), listing)
    }
}

impl Ext2View {
    /// The step that resolution takes at the component that starts at byte
    /// `from` of `path`.
    pub open spec fn resolve_step(
        self,
        path: Seq<u8>,
        from: int,
        listing: Seq<(usize, Seq<u8>)>,
    ) -> Result<usize, Ext2Error> {
        let end = component_end(path, from);
        match lookup(listing, path.subrange(from, end), 0) {
            None => Err(Ext2Error::NotFound),
            Some(n) => if end >= path.len() {
                Ok(n)
            } else {
                match self.enter(n) {
                    Err(e) => Err(e),
                    Ok(next) => self.resolve(components(path, end + 1), next),
                }
            },
        }
    }

    /// Resolving the components from byte `from` on takes one step and then
    /// resolves the components behind the next separator.
    pub proof fn lemma_resolve_step(self, path: Seq<u8>, from: int, listing: Seq<(usize, Seq<u8>)>)
        requires
            0 <= from <= path.len(),
        ensures
            self.resolve(components(path, from), listing) == self.resolve_step(path, from, listing),
    {
        lemma_position_of(path, SEPARATOR, from);
        let end = component_end(path, from);
        let names = components(path, from);
        assert(names[0] == path.subrange(from, end));
        if end < path.len() {
            assert(names.drop_first() =~= components(path, end + 1));
            lemma_position_of(path, SEPARATOR, end + 1);
            assert(components(path, end + 1).len() >= 1);
            assert(names.len() >= 2);
        } else {
            assert(names.len() == 1);
        }
    }
}

/// The inode number of the first entry of `listing` that has the name `name`.
pub fn find_entry(listing: &[(usize, &[u8])], name: &[u8]) -> (r: Option<usize>)
    ensures
        r == lookup(listing_view(listing@), name@, 0),
{
    let mut i: usize = 0;
    while i < listing.len()
        invariant
            i <= listing@.len(),
            lookup(listing_view(listing@), name@, 0) == lookup(
                listing_view(listing@),
                name@,
                i as int,
            ),
        decreases listing@.len() - i,
    {
        if bytes_eq(listing[i].1, name) {
            return Some(listing[i].0);
        }
        i += 1;
    }
    None
}

impl<'a> Ext2<'a> {
    /// The listing of the directory with inode number `inode`.
    ///
    /// Fails with `NotADirectory` where the inode's directory bit is not set,
    /// and as [`Ext2::get_inode`] and [`Ext2::read_dir_inode`] do.
    pub fn enter_directory(&self, inode: usize) -> (r: Result<Vec<(usize, &'a [u8])>, Ext2Error>)
        ensures
            match r {
                Ok(listing) => self@.enter(inode) == Ok::<Seq<(usize, Seq<u8>)>, Ext2Error>(
                    listing_view(listing@),
                ),
                Err(e) => self@.enter(inode) == Err::<Seq<(usize, Seq<u8>)>, Ext2Error>(e),
            },
    {
        let found = match self.get_inode(inode) {
            Ok(found) => found,
            Err(e) => {
                return Err(e);
            },
        };
        if !found.type_perm.is_directory() {
            return Err(Ext2Error::NotADirectory);
        }
        self.read_dir_inode(inode)
    }

    /// The inode number that the path with the bytes `path` leads to,
    /// starting from the directory listing `dirs`.
    ///
    /// Fails with `NotFound` where a component names no entry of the listing
    /// it is looked up in, with `NotADirectory` where a component that is not
    /// the last names an inode without the directory bit, and as
    /// [`Ext2::get_inode`] and [`Ext2::read_dir_inode`] do where a directory
    /// on the way cannot be read.
    pub fn follow_path_bytes(&self, path: &[u8], dirs: &[(usize, &[u8])]) -> (r: Result<
        usize,
        Ext2Error,
    >)
        ensures
            r == self@.follow_path(path@, listing_view(dirs@)),
    {
        let mut entered: Vec<(usize, &'a [u8])> = Vec::new();
        let mut descended = false;
        let mut from: usize = 0;
        proof {
            lemma_len_fits(path);
        }
        loop
            invariant
                from <= path@.len() <= usize::MAX,
                self@.follow_path(path@, listing_view(dirs@)) == self@.resolve(
                    components(path@, from as int),
                    if descended {
                        listing_view(entered@)
                    } else {
                        listing_view(dirs@)
                    },
                ),
            decreases path@.len() - from,
        {
            let end = find_byte(path, SEPARATOR, from);
            let name = vstd::slice::slice_subrange(path, from, end);
            proof {
                self@.lemma_resolve_step(
                    path@,
                    from as int,
                    if descended {
                        listing_view(entered@)
                    } else {
                        listing_view(dirs@)
                    },
                );
            }
            let looked_up = if descended {
                find_entry(entered.as_slice(), name)
            } else {
                find_entry(dirs, name)
            };
            let found = match looked_up {
                Some(found) => found,
                None => {
                    return Err(Ext2Error::NotFound);
                },
            };
            if end >= path.len() {
                return Ok(found);
            }
            entered = match self.enter_directory(found) {
                Ok(next) => next,
                Err(e) => {
                    return Err(e);
                },
            };
            descended = true;
            from = end + 1;
        }
    }

    /// The inode number that `path` leads to, starting from the directory
    /// listing `dirs`. See [`Ext2::follow_path_bytes`].
    pub fn follow_path(&self, path: &str, dirs: Vec<(usize, &[u8])>) -> (r: Result<
        usize,
        Ext2Error,
    >)
        ensures
            r == self@.follow_path(path.spec_bytes(), listing_view(dirs@)),
    {
        self.follow_path_bytes(path.as_bytes(), dirs.as_slice())
    }
}

/// A path that ends in a separator and a last component has the components
/// of what stands before the separator, and then the last component.
pub proof fn lemma_components_push(prefix: Seq<u8>, last: Seq<u8>, from: int)
    requires
        0 <= from <= prefix.len(),
        forall|i: int| 0 <= i < last.len() ==> last[i] != SEPARATOR,
    ensures
        components(prefix + seq![SEPARATOR] + last, from) == components(prefix, from).push(last),
    decreases prefix.len() - from,
{
    let path = prefix + seq![SEPARATOR] + last;
    let end = component_end(prefix, from);
    lemma_position_of(prefix, SEPARATOR, from);
    lemma_component_end_agrees(prefix, last, from);
    assert(path.subrange(from, end) =~= prefix.subrange(from, end));
    if end < prefix.len() {
        lemma_components_push(prefix, last, end + 1);
        assert(seq![prefix.subrange(from, end)] + components(prefix, end + 1).push(last) =~= (
            seq![prefix.subrange(from, end)] + components(prefix, end + 1)).push(last));
    } else {
        let behind: int = prefix.len() as int + 1;
        lemma_position_of_none(path, SEPARATOR, behind);
        assert(path.subrange(behind, path.len() as int) =~= last);
        assert(components(path, behind) =~= seq![last]);
        assert(seq![prefix.subrange(from, end)] + seq![last] =~= seq![
            prefix.subrange(from, end),
        ].push(last));
    }
}

proof fn lemma_component_end_agrees(prefix: Seq<u8>, last: Seq<u8>, from: int)
    requires
        0 <= from <= prefix.len(),
    ensures
        component_end(prefix + seq![SEPARATOR] + last, from) == component_end(prefix, from),
    decreases prefix.len() - from,
{
    if from < prefix.len() && prefix[from] != SEPARATOR {
        lemma_component_end_agrees(prefix, last, from + 1);
    }
}

impl Ext2View {
    proof fn lemma_resolve_push(
        self,
        names: Seq<Seq<u8>>,
        last: Seq<u8>,
        listing: Seq<(usize, Seq<u8>)>,
    )
        requires
            self.resolve(names, listing) matches Ok(d) && self.enter(d) is Ok,
        ensures
            self.resolve(names.push(last), listing) == self.resolve(
                seq![last],
                self.enter(self.resolve(names, listing).unwrap()).unwrap(),
            ),
        decreases names.len(),
    {
        let longer = names.push(last);
        assert(longer[0] == names[0]);
        assert(longer.drop_first() =~= names.drop_first().push(last));
        if names.len() == 1 {
            assert(names.drop_first().push(last) =~= seq![last]);
        } else {
            let n = lookup(listing, names[0], 0).unwrap();
            self.lemma_resolve_push(names.drop_first(), last, self.enter(n).unwrap());
        }
    }

    /// Following a path that ends in a separator and one more component is
    /// following what stands before the separator, which must lead to a
    /// directory, and then following the last component from that
    /// directory's listing.
    pub proof fn lemma_path_composition(
        self,
        prefix: Seq<u8>,
        last: Seq<u8>,
        listing: Seq<(usize, Seq<u8>)>,
    )
        requires
            forall|i: int| 0 <= i < last.len() ==> last[i] != SEPARATOR,
            self.follow_path(prefix, listing) matches Ok(d) && self.enter(d) is Ok,
        ensures
            self.follow_path(prefix + seq![SEPARATOR] + last, listing) == self.follow_path(
                last,
                self.dir_listing(self.follow_path(prefix, listing).unwrap() as nat).unwrap(),
            ),
    {
        lemma_components_push(prefix, last, 0);
        lemma_position_of_none(last, SEPARATOR, 0);
        assert(last.subrange(0, last.len() as int) =~= last);
        assert(components(last, 0) =~= seq![last]);
        self.lemma_resolve_push(components(prefix, 0), last, listing);
    }
}

} // verus!
