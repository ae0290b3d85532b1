//! The decisions of an interactive session on a mounted volume: what each
//! command line does to the working directory and what it prints.
//!
//! A session is driven from outside: before each prompt the driver asks for
//! the working directory's listing with [`Shell::begin`], reads a line, and
//! hands both to [`Shell::execute`]. It prints each [`Reply`] and stops where
//! the reply says so.

use vstd::prelude::*;
use vstd::string::StringSliceAdditionalSpecFns;
use vstd::utf8::valid_utf8;
use crate::ext2::bytes::{
    append_bytes, bytes_eq, find_byte, has_prefix, lemma_len_fits, position_of, starts_with,
    trim_end, trimmed,
};
use crate::ext2::dir::listing_view;
use crate::ext2::file::{chunk_views, Chunk, ChunkView};
use crate::ext2::trusted::is_utf8;
use crate::ext2::{Ext2, Ext2Error, Ext2View, ROOT_INODE};

verus! {

/// The byte between the words of a command line.
pub const SPACE: u8 = 32;

/// The byte between the names of a listing.
pub const TAB: u8 = 9;

/// The byte that ends a line of output.
pub const NEWLINE: u8 = 10;

/// The state of a session: the inode number of the working directory.
#[derive(Clone, Copy, Debug, PartialEq, Eq, Structural)]
pub struct Shell {
    pub cwd: usize,
}

/// What a command gives back: the bytes to print, and whether the session
/// ends.
#[derive(Debug)]
pub struct Reply {
    pub output: Vec<u8>,
    pub quit: bool,
}

/// What a command leaves, as plain values.
pub struct Outcome {
    pub cwd: usize,
    pub output: Seq<u8>,
    pub quit: bool,
}

/// The state of a scan over a listing for the entries of one name.
pub struct Scan {
    pub cwd: usize,
    pub output: Seq<u8>,
    pub found: bool,
}

/// The second word of `line`: what stands between its first space and the
/// next one. `None` where `line` has no space.
pub open spec fn argument(line: Seq<u8>) -> Option<Seq<u8>> {
    let first = position_of(line, SPACE, 0);
    if first >= line.len() {
        None
    } else {
        Some(line.subrange(first + 1, position_of(line, SPACE, first + 1)))
    }
}

/// `text` as a line of output.
pub open spec fn line_of(text: Seq<u8>) -> Seq<u8> {
    text.push(NEWLINE)
}

/// The names of `listing` with a tab between each two.
pub open spec fn names_text(listing: Seq<(usize, Seq<u8>)>) -> Seq<u8>
    decreases listing.len(),
{
    if listing.len() == 0 {
        Seq::empty()
    } else if listing.len() == 1 {
        listing[0].1
    } else {
        names_text(listing.drop_last()).push(TAB) + listing.last().1
    }
}

/// The bytes that `chunks` are shown as: data as it is, a hole as three
/// dots.
pub open spec fn rendered(chunks: Seq<ChunkView>) -> Seq<u8>
    decreases chunks.len(),
{
    if chunks.len() == 0 {
        Seq::empty()
    } else {
        rendered(chunks.drop_last()) + match chunks.last() {
            ChunkView::Data(bytes) => bytes,
            ChunkView::Hole => "...".spec_bytes(),
        }
    }
}

/// What is not found is reported with the name that was looked for.
pub open spec fn not_located(name: Seq<u8>, tail: Seq<u8>) -> Seq<u8> {
    line_of("unable to locate ".spec_bytes() + name + tail)
}

impl Ext2View {
    /// What `cat` prints for the file with inode number `n`: its contents
    /// and a newline, or the text of what went wrong.
    pub open spec fn file_text(self, n: usize) -> Seq<u8> {
        match self.inode(n as nat) {
            Err(e) => line_of(e.text()),
            Ok(inode) => match self.file_chunks(inode) {
                Err(e) => line_of(e.text()),
                Ok(chunks) => if valid_utf8(rendered(chunks)) {
                    line_of(rendered(chunks))
                } else {
                    line_of(Ext2Error::InvalidUtf8.text())
                },
            },
        }
    }

    /// `cd` at an entry of the right name: the working directory moves
    /// there where the entry's inode is a directory.
    pub open spec fn visit_dir(self, n: usize, s: Scan) -> Scan {
        match self.inode(n as nat) {
            Err(e) => Scan { cwd: s.cwd, output: s.output + line_of(e.text()), found: true },
            Ok(inode) => if inode.type_perm.is_dir() {
                Scan { cwd: n, output: s.output, found: true }
            } else {
                Scan {
                    cwd: s.cwd,
                    output: s.output + line_of(Ext2Error::NotADirectory.text()),
                    found: true,
                }
            },
        }
    }

    /// `cd name` over the entries `dirs[i..]`.
    pub open spec fn change_scan(
        self,
        dirs: Seq<(usize, Seq<u8>)>,
        name: Seq<u8>,
        i: int,
        s: Scan,
    ) -> Scan
        decreases dirs.len() - i,
    {
        if i < 0 || i >= dirs.len() {
            s
        } else if dirs[i].1 == name {
            self.change_scan(dirs, name, i + 1, self.visit_dir(dirs[i].0, s))
        } else {
            self.change_scan(dirs, name, i + 1, s)
        }
    }

    /// `cat name` over the entries `dirs[i..]`. An entry's name is compared
    /// without the blanks at its end.
    pub open spec fn show_scan(
        self,
        dirs: Seq<(usize, Seq<u8>)>,
        name: Seq<u8>,
        i: int,
        s: Scan,
    ) -> Scan
        decreases dirs.len() - i,
    {
        if i < 0 || i >= dirs.len() {
            s
        } else if trim_end(dirs[i].1) == name {
            self.show_scan(
                dirs,
                name,
                i + 1,
                Scan { cwd: s.cwd, output: s.output + self.file_text(dirs[i].0), found: true },
            )
        } else {
            self.show_scan(dirs, name, i + 1, s)
        }
    }

    /// `ls`: the names of the working directory, or of the directory that
    /// the argument leads to. Where the argument leads to something other
    /// than a directory, that is reported; where the directory cannot be
    /// read, the session ends.
    pub open spec fn list(self, cwd: usize, dirs: Seq<(usize, Seq<u8>)>, line: Seq<u8>) -> Outcome {
        match argument(line) {
            None => Outcome { cwd, output: line_of(names_text(dirs)), quit: false },
            Some(path) => match self.follow_path(path, dirs) {
                Err(e) => Outcome { cwd, output: line_of(e.text()), quit: false },
                Ok(d) => match self.enter(d) {
                    Ok(listing) => Outcome { cwd, output: line_of(names_text(listing)), quit: false },
                    Err(Ext2Error::NotADirectory) => Outcome {
                        cwd,
                        output: line_of(Ext2Error::NotADirectory.text()),
                        quit: false,
                    },
                    Err(_) => Outcome {
                        cwd,
                        output: line_of("unable to read cwd".spec_bytes()),
                        quit: true,
                    },
                },
            },
        }
    }

    /// `cd`: to the root directory without an argument, else to the entry of
    /// the working directory that the argument names.
    pub open spec fn change_dir(self, cwd: usize, dirs: Seq<(usize, Seq<u8>)>, line: Seq<u8>)
        -> Outcome {
        match argument(line) {
            None => Outcome { cwd: ROOT_INODE, output: Seq::empty(), quit: false },
            Some(name) => {
                let s = self.change_scan(
                    dirs,
                    name,
                    0,
                    Scan { cwd, output: Seq::empty(), found: false },
                );
                Outcome {
                    cwd: s.cwd,
                    output: if s.found {
                        s.output
                    } else {
                        s.output + not_located(name, ", cwd unchanged".spec_bytes())
                    },
                    quit: false,
                }
            },
        }
    }

    /// `cat`: the contents of the entry of the working directory that the
    /// argument names.
    pub open spec fn show(self, cwd: usize, dirs: Seq<(usize, Seq<u8>)>, line: Seq<u8>) -> Outcome {
        match argument(line) {
            None => Outcome { cwd, output: line_of("no argument provided".spec_bytes()), quit: false },
            Some(name) => {
                let s = self.show_scan(
                    dirs,
                    name,
                    0,
                    Scan { cwd, output: Seq::empty(), found: false },
                );
                Outcome {
                    cwd,
                    output: if s.found {
                        s.output
                    } else {
                        s.output + not_located(name, Seq::empty())
                    },
                    quit: false,
                }
            },
        }
    }

    /// What the command line `line` does in the working directory `cwd`,
    /// whose listing is `dirs`. A command is known by how the line begins.
    pub open spec fn run(self, cwd: usize, dirs: Seq<(usize, Seq<u8>)>, line: Seq<u8>) -> Outcome {
        if has_prefix(line, "ls".spec_bytes()) {
            self.list(cwd, dirs, line)
        } else if has_prefix(line, "cd".spec_bytes()) {
            self.change_dir(cwd, dirs, line)
        } else if has_prefix(line, "mkdir".spec_bytes()) {
            Outcome { cwd, output: line_of("mkdir not yet implemented".spec_bytes()), quit: false }
        } else if has_prefix(line, "cat".spec_bytes()) {
            self.show(cwd, dirs, line)
        } else if has_prefix(line, "rm".spec_bytes()) {
            Outcome { cwd, output: line_of("rm not yet implemented".spec_bytes()), quit: false }
        } else if has_prefix(line, "mount".spec_bytes()) {
            Outcome { cwd, output: line_of("mount not yet implemented".spec_bytes()), quit: false }
        } else if has_prefix(line, "link".spec_bytes()) {
            Outcome { cwd, output: line_of("link not yet implemented".spec_bytes()), quit: false }
        } else if has_prefix(line, "quit".spec_bytes()) || has_prefix(line, "exit".spec_bytes()) {
            Outcome { cwd, output: Seq::empty(), quit: true }
        } else {
            Outcome { cwd, output: Seq::empty(), quit: false }
        }
    }
}

/// Appends `text` and a newline to `out`.
fn say(out: &mut Vec<u8>, text: &str)
    ensures
        final(out)@ == old(out)@ + line_of(text.spec_bytes()),
{
    append_bytes(out, text.as_bytes());
    out.push(NEWLINE);
    assert(out@ =~= old(out)@ + line_of(text.spec_bytes()));
}

/// The second word of `line`.
fn second_word<'b>(line: &'b [u8]) -> (r: Option<&'b [u8]>)
    ensures
        match r {
            Some(word) => argument(line@) == Some(word@),
            None => argument(line@).is_none(),
        },
{
    proof {
        lemma_len_fits(line);
    }
    let first = find_byte(line, SPACE, 0);
    if first >= line.len() {
        return None;
    }
    let next = find_byte(line, SPACE, first + 1);
    Some(vstd::slice::slice_subrange(line, first + 1, next))
}

/// Appends the names of `listing` with a tab between each two, and a
/// newline.
fn print_names(out: &mut Vec<u8>, listing: &[(usize, &[u8])])
    ensures
        final(out)@ == old(out)@ + line_of(names_text(listing_view(listing@))),
{
    let ghost names = listing_view(listing@);
    let mut i: usize = 0;
    proof {
        assert(names.subrange(0, 0) =~= Seq::empty());
        assert(out@ =~= old(out)@ + names_text(names.subrange(0, 0)));
    }
    while i < listing.len()
        invariant
            i <= listing@.len(),
            names == listing_view(listing@),
            out@ == old(out)@ + names_text(names.subrange(0, i as int)),
        decreases listing@.len() - i,
    {
        if i > 0 {
            out.push(TAB);
        }
        append_bytes(out, listing[i].1);
        proof {
            let upto = names.subrange(0, i + 1);
            assert(upto.drop_last() =~= names.subrange(0, i as int));
            assert(upto.last() == names[i as int]);
            assert(upto[0] == names[0]);
            assert(out@ =~= old(out)@ + names_text(upto));
        }
        i += 1;
    }
    proof {
        assert(names.subrange(0, names.len() as int) =~= names);
    }
    out.push(NEWLINE);
    assert(out@ =~= old(out)@ + line_of(names_text(names)));
}

/// The bytes that `chunks` are shown as.
fn render(chunks: &Vec<Chunk<'_>>) -> (text: Vec<u8>)
    ensures
        text@ == rendered(chunk_views(chunks@)),
{
    let ghost views = chunk_views(chunks@);
    let mut text: Vec<u8> = Vec::new();
    let mut i: usize = 0;
    proof {
        assert(views.subrange(0, 0) =~= Seq::empty());
    }
    while i < chunks.len()
        invariant
            i <= chunks@.len(),
            views == chunk_views(chunks@),
            text@ == rendered(views.subrange(0, i as int)),
        decreases chunks@.len() - i,
    {
        match chunks[i] {
            Chunk::Data(bytes) => {
                append_bytes(&mut text, bytes);
            },
            Chunk::Hole => {
                append_bytes(&mut text, "...".as_bytes());
            },
        }
        proof {
            let upto = views.subrange(0, i + 1);
            assert(upto.drop_last() =~= views.subrange(0, i as int));
            assert(upto.last() == chunks@[i as int]@);
        }
        i += 1;
    }
    proof {
        assert(views.subrange(0, views.len() as int) =~= views);
    }
    text
}

impl Shell {
    /// A session in the root directory.
    pub fn new() -> (r: Shell)
        ensures
            r.cwd == ROOT_INODE,
    {
        Shell { cwd: ROOT_INODE }
    }

    /// The listing of the working directory, which each command works on;
    /// where it cannot be read, the reply that ends the session.
    pub fn begin<'a>(&self, fs: &Ext2<'a>) -> (r: Result<Vec<(usize, &'a [u8])>, Reply>)
        ensures
            match r {
                Ok(dirs) => fs@.dir_listing(self.cwd as nat) == Ok::<
                    Seq<(usize, Seq<u8>)>,
                    Ext2Error,
                >(listing_view(dirs@)),
                Err(reply) => {
                    &&& fs@.dir_listing(self.cwd as nat) is Err
                    &&& reply.output@ == line_of("unable to read cwd, top".spec_bytes())
                    &&& reply.quit
                },
            },
    {
        match fs.read_dir_inode(self.cwd) {
            Ok(dirs) => Ok(dirs),
            Err(_) => {
                let mut output: Vec<u8> = Vec::new();
                say(&mut output, "unable to read cwd, top");
                Err(Reply { output, quit: true })
            },
        }
    }

    /// The reply to the end of the input: a farewell, and the session ends.
    pub fn end_of_input() -> (reply: Reply)
        ensures
            reply.output@ == line_of("bye!".spec_bytes()),
            reply.quit,
    {
        let mut output: Vec<u8> = Vec::new();
        say(&mut output, "bye!");
        Reply { output, quit: true }
    }

    /// Appends what `cat` prints for the file with inode number `n`.
    fn print_file(fs: &Ext2<'_>, n: usize, out: &mut Vec<u8>)
        ensures
            final(out)@ == old(out)@ + fs@.file_text(n),
    {
        let inode = match fs.get_inode(n) {
            Ok(inode) => inode,
            Err(e) => {
                say(out, e.message());
                return ;
            },
        };
        let chunks = match fs.read_file(&inode) {
            Ok(chunks) => chunks,
            Err(e) => {
                say(out, e.message());
                return ;
            },
        };
        let text = render(&chunks);
        if is_utf8(text.as_slice()) {
            append_bytes(out, text.as_slice());
            out.push(NEWLINE);
            assert(out@ =~= old(out)@ + line_of(text@));
        } else {
            say(out, Ext2Error::InvalidUtf8.message());
        }
    }

    /// `ls`.
    fn list(&self, fs: &Ext2<'_>, dirs: &[(usize, &[u8])], line: &[u8]) -> (reply: Reply)
        ensures
            reply.output@ == fs@.list(self.cwd, listing_view(dirs@), line@).output,
            reply.quit == fs@.list(self.cwd, listing_view(dirs@), line@).quit,
    {
        let mut output: Vec<u8> = Vec::new();
        let path = match second_word(line) {
            Some(path) => path,
            None => {
                print_names(&mut output, dirs);
                return Reply { output, quit: false };
            },
        };
        let target = match fs.follow_path_bytes(path, dirs) {
            Ok(target) => target,
            Err(e) => {
                say(&mut output, e.message());
                return Reply { output, quit: false };
            },
        };
        match fs.enter_directory(target) {
            Ok(listing) => {
                print_names(&mut output, listing.as_slice());
                Reply { output, quit: false }
            },
            Err(Ext2Error::NotADirectory) => {
                say(&mut output, Ext2Error::NotADirectory.message());
                Reply { output, quit: false }
            },
            Err(_) => {
                say(&mut output, "unable to read cwd");
                Reply { output, quit: true }
            },
        }
    }

    /// `cd`.
    fn change_dir(&mut self, fs: &Ext2<'_>, dirs: &[(usize, &[u8])], line: &[u8]) -> (reply: Reply)
        ensures
            final(self).cwd == fs@.change_dir(old(self).cwd, listing_view(dirs@), line@).cwd,
            reply.output@ == fs@.change_dir(old(self).cwd, listing_view(dirs@), line@).output,
            !reply.quit,
    {
        let mut output: Vec<u8> = Vec::new();
        let name = match second_word(line) {
            Some(name) => name,
            None => {
                self.cwd = ROOT_INODE;
                return Reply { output, quit: false };
            },
        };
        let ghost names = listing_view(dirs@);
        let ghost first = Scan { cwd: self.cwd, output: Seq::empty(), found: false };
        let mut found = false;
        let mut i: usize = 0;
        while i < dirs.len()
            invariant
                i <= dirs@.len(),
                names == listing_view(dirs@),
                fs@.change_scan(names, name@, 0, first) == fs@.change_scan(
                    names,
                    name@,
                    i as int,
                    Scan { cwd: self.cwd, output: output@, found },
                ),
            decreases dirs@.len() - i,
        {
            if bytes_eq(dirs[i].1, name) {
                found = true;
                match fs.get_inode(dirs[i].0) {
                    Ok(inode) => {
                        if inode.type_perm.is_directory() {
                            self.cwd = dirs[i].0;
                        } else {
                            say(&mut output, Ext2Error::NotADirectory.message());
                        }
                    },
                    Err(e) => {
                        say(&mut output, e.message());
                    },
                }
            }
            i += 1;
        }
        if !found {
            let ghost before = output@;
            append_bytes(&mut output, "unable to locate ".as_bytes());
            append_bytes(&mut output, name);
            append_bytes(&mut output, ", cwd unchanged".as_bytes());
            output.push(NEWLINE);
            assert(output@ =~= before + not_located(name@, ", cwd unchanged".spec_bytes()));
        }
        Reply { output, quit: false }
    }

    /// `cat`.
    fn show(&self, fs: &Ext2<'_>, dirs: &[(usize, &[u8])], line: &[u8]) -> (reply: Reply)
        ensures
            reply.output@ == fs@.show(self.cwd, listing_view(dirs@), line@).output,
            !reply.quit,
    {
        let mut output: Vec<u8> = Vec::new();
        let name = match second_word(line) {
            Some(name) => name,
            None => {
                say(&mut output, "no argument provided");
                return Reply { output, quit: false };
            },
        };
        let ghost names = listing_view(dirs@);
        let ghost first = Scan { cwd: self.cwd, output: Seq::empty(), found: false };
        let mut found = false;
        let mut i: usize = 0;
        while i < dirs.len()
            invariant
                i <= dirs@.len(),
                names == listing_view(dirs@),
                fs@.show_scan(names, name@, 0, first) == fs@.show_scan(
                    names,
                    name@,
                    i as int,
                    Scan { cwd: self.cwd, output: output@, found },
                ),
            decreases dirs@.len() - i,
        {
            if bytes_eq(trimmed(dirs[i].1), name) {
                found = true;
                Self::print_file(fs, dirs[i].0, &mut output);
            }
            i += 1;
        }
        if !found {
            let ghost before = output@;
            append_bytes(&mut output, "unable to locate ".as_bytes());
            append_bytes(&mut output, name);
            output.push(NEWLINE);
            assert(output@ =~= before + not_located(name@, Seq::empty()));
        }
        Reply { output, quit: false }
    }

    /// Carries out the command line `line` in the working directory, whose
    /// listing is `dirs`.
    ///
    /// `ls` prints the names of the working directory, or of the directory
    /// that its argument leads to, with a tab between each two and a newline
    /// at the end. `cd` moves to the root directory, or to the entry that its
    /// argument names. `cat` prints the file that its argument names, a hole
    /// as three dots. `quit` and `exit` end the session. What fails is
    /// reported in a line, and the session goes on; it ends where the
    /// directory that `ls` is to list cannot be read.
    pub fn execute(&mut self, fs: &Ext2<'_>, dirs: &[(usize, &[u8])], line: &str) -> (reply: Reply)
        ensures
            final(self).cwd == fs@.run(old(self).cwd, listing_view(dirs@), line.spec_bytes()).cwd,
            reply.output@ == fs@.run(old(self).cwd, listing_view(dirs@), line.spec_bytes()).output,
            reply.quit == fs@.run(old(self).cwd, listing_view(dirs@), line.spec_bytes()).quit,
    {
        let bytes = line.as_bytes();
        let mut output: Vec<u8> = Vec::new();
        if starts_with(bytes, "ls".as_bytes()) {
            self.list(fs, dirs, bytes)
        } else if starts_with(bytes, "cd".as_bytes()) {
            self.change_dir(fs, dirs, bytes)
        } else if starts_with(bytes, "mkdir".as_bytes()) {
            say(&mut output, "mkdir not yet implemented");
            Reply { output, quit: false }
        } else if starts_with(bytes, "cat".as_bytes()) {
            self.show(fs, dirs, bytes)
        } else if starts_with(bytes, "rm".as_bytes()) {
            say(&mut output, "rm not yet implemented");
            Reply { output, quit: false }
        } else if starts_with(bytes, "mount".as_bytes()) {
            say(&mut output, "mount not yet implemented");
            Reply { output, quit: false }
        } else if starts_with(bytes, "link".as_bytes()) {
            say(&mut output, "link not yet implemented");
            Reply { output, quit: false }
        } else if starts_with(bytes, "quit".as_bytes()) || starts_with(bytes, "exit".as_bytes()) {
            Reply { output, quit: true }
        } else {
            Reply { output, quit: false }
        }
    }
}

} // verus!
