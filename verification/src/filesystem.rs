use std::collections::VecDeque;
use std::time::SystemTime;
use vstd::prelude::*;
use crate::text::{
    chars_of, contains_chars, has_part, pieces_of, same_chars, split_chars, split_on,
    string_of_chars,
};

verus! {

/// `std::time::SystemTime`, a moment that is carried along and never
/// looked into.
#[verifier::external_type_specification]
#[verifier::external_body]
pub struct ExSystemTime(SystemTime);

/// Calls `SystemTime::now`. Nothing is said of the moment that it gives.
#[verifier::external_body]
fn now() -> SystemTime {
    SystemTime::now()
}

pub struct File {
    name: String,
    modified: SystemTime,
    content: Vec<u8>,
}

pub struct Dir {
    name: String,
    modified: SystemTime,
    children: Vec<Node>,
}

/// An entry of the file system.
pub enum Node {
    File(File),
    Dir(Dir),
}

#[derive(Debug, PartialEq, Eq, Clone, Copy, Structural)]
pub enum FSError {
    /// No entry at the path.
    NotFound,
    /// The path goes through a file, or ends at one where a directory is
    /// needed.
    NotADir,
    /// The directory has an entry of that name already.
    Duplicate,
    /// The directory to remove has entries.
    DirNotEmpty,
    GenericError,
}

/// An entry with all below it, as a mathematical value.
pub enum Tree {
    File { name: Seq<char>, modified: SystemTime, content: Seq<u8> },
    Dir { name: Seq<char>, modified: SystemTime, children: Seq<Tree> },
}

impl Tree {
    pub open spec fn name(self) -> Seq<char> {
        match self {
            Tree::File { name, .. } => name,
            Tree::Dir { name, .. } => name,
        }
    }

    /// The entries of a directory; a file has none.
    pub open spec fn kids(self) -> Seq<Tree> {
        match self {
            Tree::File { .. } => Seq::empty(),
            Tree::Dir { children, .. } => children,
        }
    }

    /// The entry with another moment of change.
    pub open spec fn retimed(self, t: SystemTime) -> Tree {
        match self {
            Tree::File { name, content, .. } => Tree::File { name, modified: t, content },
            Tree::Dir { name, children, .. } => Tree::Dir { name, modified: t, children },
        }
    }

    /// The directory with other entries.
    pub open spec fn with_kids(self, kids: Seq<Tree>) -> Tree {
        match self {
            Tree::File { .. } => self,
            Tree::Dir { name, modified, .. } => Tree::Dir { name, modified, children: kids },
        }
    }

    /// The entry that the places in `path` lead to: from this entry to its
    /// entry at the first place, from there to that one's entry at the
    /// second, and so on.
    pub open spec fn at(self, path: Seq<int>) -> Tree
        decreases path.len(),
    {
        if path.len() == 0 {
            self
        } else {
            self.kids()[path[0]].at(path.drop_first())
        }
    }

    /// Whether the places in `path` lead to an entry.
    pub open spec fn has(self, path: Seq<int>) -> bool
        decreases path.len(),
    {
        path.len() == 0 || (0 <= path[0] < self.kids().len() && self.kids()[path[0]].has(
            path.drop_first(),
        ))
    }

    /// The tree with the entry that `path` leads to replaced.
    pub open spec fn replaced(self, path: Seq<int>, new: Tree) -> Tree
        decreases path.len(),
    {
        if path.len() == 0 {
            new
        } else {
            self.with_kids(
                self.kids().update(path[0], self.kids()[path[0]].replaced(path.drop_first(), new)),
            )
        }
    }
}

/// The place of the first entry of that name; the number of entries if
/// none bears it.
pub open spec fn first_named(entries: Seq<Tree>, name: Seq<char>) -> int
    decreases entries.len(),
{
    if entries.len() == 0 {
        0
    } else if entries[0].name() == name {
        0
    } else {
        1 + first_named(entries.drop_first(), name)
    }
}

/// The places that lead from an entry to the one that the parts of a path
/// name, `k` being the part that stands for the entry itself. Every part
/// behind the first names an entry of the directory before it; the last
/// part must be the name of the entry that is reached.
pub open spec fn locate(t: Tree, parts: Seq<Seq<char>>, k: int) -> Result<Seq<int>, FSError>
    decreases parts.len() - k,
{
    if k + 1 >= parts.len() {
        if t.name() == parts[k] {
            Ok(Seq::empty())
        } else {
            Err(FSError::NotFound)
        }
    } else if t is File {
        Err(FSError::NotADir)
    } else {
        let i = first_named(t.kids(), parts[k + 1]);
        if i < t.kids().len() {
            match locate(t.kids()[i], parts, k + 1) {
                Ok(rest) => Ok(seq![i] + rest),
                Err(e) => Err(e),
            }
        } else {
            Err(FSError::NotFound)
        }
    }
}

/// The places that lead from the root to the entry at a path: the root
/// itself for the path `/`; else the path is cut at its slashes.
pub open spec fn resolve(root: Tree, path: Seq<char>) -> Result<Seq<int>, FSError> {
    if path == seq!['/'] {
        Ok(Seq::empty())
    } else {
        locate(root, split_on(path, '/'), 0)
    }
}

impl View for Node {
    type V = Tree;

    open spec fn view(&self) -> Tree
        decreases self,
    {
        match *self {
            Node::File(f) => Tree::File { name: f.spec_name(), modified: f.spec_modified(), content: f.spec_content() },
            Node::Dir(d) => Tree::Dir {
                name: d.spec_name(),
                modified: d.spec_modified(),
                children: Seq::new(
                    d.entries().len(),
                    |i: int|
                        if 0 <= i < d.entries().len() {
                            d.entries()[i]@
                        } else {
                            Tree::Dir { name: Seq::empty(), modified: d.spec_modified(), children: Seq::empty() }
                        },
                ),
            },
        }
    }
}

impl File {
    pub closed spec fn spec_name(&self) -> Seq<char> {
        self.name@
    }

    pub closed spec fn spec_modified(&self) -> SystemTime {
        self.modified
    }

    pub closed spec fn spec_content(&self) -> Seq<u8> {
        self.content@
    }
}

impl Dir {
    pub closed spec fn spec_name(&self) -> Seq<char> {
        self.name@
    }

    pub closed spec fn spec_modified(&self) -> SystemTime {
        self.modified
    }

    pub closed spec fn entries(&self) -> Seq<Node> {
        self.children@
    }
}

/// The file system: a tree of directories and files under a root
/// directory without a name.
pub struct Filesystem {
    root: Node,
}

impl View for Filesystem {
    type V = Tree;

    closed spec fn view(&self) -> Tree {
        self.root@
    }
}

pub proof fn lemma_first_named(entries: Seq<Tree>, name: Seq<char>, k: int)
    requires
        0 <= k <= entries.len(),
        forall|i: int| 0 <= i < k ==> entries[i].name() != name,
        k < entries.len() ==> entries[k].name() == name,
    ensures
        first_named(entries, name) == k,
    decreases k,
{
    if k > 0 {
        let rest = entries.drop_first();
        assert forall|i: int| 0 <= i < k - 1 implies rest[i].name() != name by {
            assert(rest[i] == entries[i + 1]);
        }
        lemma_first_named(rest, name, k - 1);
    }
}

impl Node {
    /// The entry's name.
    pub fn name(&self) -> (r: &str)
        ensures
            r@ == self@.name(),
    {
        match self {
            Node::File(f) => f.name.as_str(),
            Node::Dir(d) => d.name.as_str(),
        }
    }

    pub fn is_dir(&self) -> (b: bool)
        ensures
            b == (self@ is Dir),
    {
        match self {
            Node::File(_) => false,
            Node::Dir(_) => true,
        }
    }
}

impl Dir {
    /// The directory as an entry of the tree.
    pub open spec fn tree(&self) -> Tree {
        Node::Dir(*self)@
    }

    /// The place of the first entry of that name; the number of entries
    /// if none bears it.
    fn position(&self, name: &Vec<char>) -> (i: usize)
        ensures
            i == first_named(self.tree().kids(), name@),
            i <= self.entries().len(),
            self.tree().kids().len() == self.entries().len(),
    {
        let ghost kids = self.tree().kids();
        let mut i: usize = 0;
        while i < self.children.len()
            invariant
                i <= self.children.len(),
                kids == self.tree().kids(),
                kids.len() == self.children@.len(),
                forall|j: int| 0 <= j < i ==> kids[j].name() != name@,
            decreases self.children.len() - i,
        {
            assert(kids[i as int] == self.children@[i as int]@);
            let entry_name = chars_of(self.children[i].name());
            if same_chars(&entry_name, name) {
                proof {
                    lemma_first_named(kids, name@, i as int);
                }
                return i;
            }
            i += 1;
        }
        proof {
            lemma_first_named(kids, name@, i as int);
        }
        i
    }
}

/// Goes from an entry to the one that the parts of a path name.
fn descend<'a>(n: &'a Node, parts: &Vec<Vec<char>>, k: usize) -> (r: Result<&'a Node, FSError>)
    requires
        k < parts.len(),
    ensures
        match locate(n@, pieces_of(parts@), k as int) {
            Ok(path) => r is Ok && (*r->Ok_0)@ == n@.at(path) && n@.has(path),
            Err(e) => r == Err::<&Node, FSError>(e),
        },
    decreases parts.len() - k,
{
    assert(pieces_of(parts@)[k as int] == parts@[k as int]@);
    if k + 1 >= parts.len() {
        if same_chars(&chars_of(n.name()), &parts[k]) {
            return Ok(n);
        } else {
            return Err(FSError::NotFound);
        }
    }
    assert(pieces_of(parts@)[k + 1] == parts@[k + 1]@);
    match n {
        Node::Dir(d) => {
            let i = d.position(&parts[k + 1]);
            if i < d.children.len() {
                assert(n@.kids()[i as int] == d.children@[i as int]@);
                let r = descend(&d.children[i], parts, k + 1);
                proof {
                    match locate(n@.kids()[i as int], pieces_of(parts@), k + 1) {
                        Ok(rest) => {
                            assert((seq![i as int] + rest).drop_first() =~= rest);
                        },
                        Err(_) => {},
                    }
                }
                r
            } else {
                Err(FSError::NotFound)
            }
        },
        Node::File(_) => Err(FSError::NotADir),
    }
}

impl Filesystem {
    /// A file system with nothing but its root.
    pub fn new() -> (fs: Self)
        ensures
            fs@ is Dir,
            fs@.name() == Seq::<char>::empty(),
            fs@.kids() == Seq::<Tree>::empty(),
    {
        let fs = Filesystem {
            root: Node::Dir(Dir { name: String::new(), modified: now(), children: Vec::new() }),
        };
        assert(fs@.kids() =~= Seq::<Tree>::empty());
        fs
    }

    /// The entry at a path.
    pub fn get(&self, path: &str) -> (r: Result<&Node, FSError>)
        ensures
            match resolve(self@, path@) {
                Ok(places) => r is Ok && (*r->Ok_0)@ == self@.at(places) && self@.has(places),
                Err(e) => r == Err::<&Node, FSError>(e),
            },
    {
        let chars = chars_of(path);
        proof {
            reveal_strlit("/");
            assert("/"@ =~= seq!['/']);
        }
        if same_chars(&chars, &chars_of("/")) {
            return Ok(&self.root);
        }
        let parts = split_chars(&chars, '/');
        descend(&self.root, &parts, 0)
    }
}

/// Goes from an entry to the one that the parts of a path name, to change
/// it.
fn descend_mut<'a>(n: &'a mut Node, parts: &Vec<Vec<char>>, k: usize) -> (r: Result<
    &'a mut Node,
    FSError,
>)
    requires
        k < parts.len(),
    ensures
        match locate(old(n)@, pieces_of(parts@), k as int) {
            Ok(path) => r is Ok && (*r->Ok_0)@ == old(n)@.at(path) && old(n)@.has(path) && final(n)@
                == old(n)@.replaced(path, (*final(r->Ok_0))@),
            Err(e) => r is Err && r->Err_0 == e && final(n)@ == old(n)@,
        },
    decreases parts.len() - k,
{
    assert(pieces_of(parts@)[k as int] == parts@[k as int]@);
    if k + 1 >= parts.len() {
        if same_chars(&chars_of(n.name()), &parts[k]) {
            return Ok(n);
        } else {
            return Err(FSError::NotFound);
        }
    }
    assert(pieces_of(parts@)[k + 1] == parts@[k + 1]@);
    match n {
        Node::Dir(d) => {
            let i = d.position(&parts[k + 1]);
            if i < d.children.len() {
                let ghost before = d.children@;
                let ghost kids = d.tree().kids();
                let ghost top = d.tree();
                assert(kids[i as int] == before[i as int]@);
                let r = descend_mut(&mut d.children[i], parts, k + 1);
                proof {
                    let after = after_borrow(d).children@;
                    let kids_after = after_borrow(d).tree().kids();
                    assert(kids_after =~= kids.update(i as int, after[i as int]@)) by {
                        assert forall|j: int| 0 <= j < kids.len() implies kids_after[j] == kids.update(
                            i as int,
                            after[i as int]@,
                        )[j] by {
                            if j != i {
                                assert(after[j] == before[j]);
                                assert(kids[j] == before[j]@);
                            }
                        }
                    }
                    assert(after_borrow(d).tree() == top.with_kids(kids_after));
                    match locate(kids[i as int], pieces_of(parts@), k + 1) {
                        Ok(rest) => {
                            assert((seq![i as int] + rest).drop_first() =~= rest);
                        },
                        Err(_) => {
                            assert(kids_after =~= kids);
                        },
                    }
                    assert(*after_borrow(n) == Node::Dir(*after_borrow(d)));
                }
                r
            } else {
                Err(FSError::NotFound)
            }
        },
        Node::File(_) => Err(FSError::NotADir),
    }
}

impl Filesystem {
    /// The entry at a path, to change it.
    pub fn get_mut(&mut self, path: &str) -> (r: Result<&mut Node, FSError>)
        ensures
            match resolve(old(self)@, path@) {
                Ok(places) => r is Ok && (*r->Ok_0)@ == old(self)@.at(places) && old(self)@.has(places)
                    && final(self)@ == old(self)@.replaced(places, (*final(r->Ok_0))@),
                Err(e) => r is Err && r->Err_0 == e && final(self)@ == old(self)@,
            },
    {
        let chars = chars_of(path);
        proof {
            reveal_strlit("/");
            assert("/"@ =~= seq!['/']);
        }
        if same_chars(&chars, &chars_of("/")) {
            return Ok(&mut self.root);
        }
        let parts = split_chars(&chars, '/');
        descend_mut(&mut self.root, &parts, 0)
    }
}

impl File {
    /// The file as an entry of the tree.
    pub open spec fn tree(&self) -> Tree {
        Node::File(*self)@
    }
}

/// A directory without entries.
pub open spec fn empty_dir(name: Seq<char>, t: SystemTime) -> Tree {
    Tree::Dir { name, modified: t, children: Seq::empty() }
}

/// A file without content.
pub open spec fn empty_file(name: Seq<char>, t: SystemTime) -> Tree {
    Tree::File { name, modified: t, content: Seq::empty() }
}

/// Whether a directory has an entry of a name.
pub open spec fn has_entry(dir: Tree, name: Seq<char>) -> bool {
    first_named(dir.kids(), name) < dir.kids().len()
}

/// The directory that a node is, to change it.
fn as_dir_mut<'a>(n: &'a mut Node) -> (r: Option<&'a mut Dir>)
    ensures
        match *old(n) {
            Node::Dir(d) => r is Some && *r->Some_0 == d && *final(n) == Node::Dir(*final(r->Some_0)),
            Node::File(_) => r is None && *final(n) == *old(n),
        },
{
    match n {
        Node::Dir(d) => Some(d),
        Node::File(_) => None,
    }
}

/// The file that a node is, to change it.
fn as_file_mut<'a>(n: &'a mut Node) -> (r: Option<&'a mut File>)
    ensures
        match *old(n) {
            Node::File(f) => r is Some && *r->Some_0 == f && *final(n) == Node::File(*final(r->Some_0)),
            Node::Dir(_) => r is None && *final(n) == *old(n),
        },
{
    match n {
        Node::File(f) => Some(f),
        Node::Dir(_) => None,
    }
}

/// Puts a new directory last among the entries of a directory.
fn add_dir<'a>(n: &'a mut Node, name: &str, time: SystemTime) -> (r: Result<&'a mut Dir, FSError>)
    ensures
        old(n)@ is File ==> r is Err && r->Err_0 == FSError::NotADir && final(n)@ == old(n)@,
        old(n)@ is Dir && has_entry(old(n)@, name@) ==> r is Err && r->Err_0 == FSError::Duplicate
            && final(n)@ == old(n)@,
        old(n)@ is Dir && !has_entry(old(n)@, name@) ==> r is Ok && r->Ok_0.tree() == empty_dir(
            name@,
            time,
        ) && final(n)@ == old(n)@.with_kids(old(n)@.kids().push(final(r->Ok_0).tree())),
{
    match n {
        Node::Dir(d) => {
            let i = d.position(&chars_of(name));
            if i < d.children.len() {
                return Err(FSError::Duplicate);
            }
            let ghost before = d.children@;
            let ghost kids = d.tree().kids();
            let ghost top = d.tree();
            let dir = Node::Dir(
                Dir { name: string_of_chars(&chars_of(name)), modified: time, children: Vec::new() },
            );
            assert(dir@ =~= empty_dir(name@, time)) by {
                assert(dir@.kids() =~= Seq::<Tree>::empty());
            }
            d.children.push(dir);
            let last: usize = d.children.len() - 1;
            assert(d.children@[last as int] == dir);
            let ghost grown = d.children@;
            match as_dir_mut(&mut d.children[last]) {
                Some(new_dir) => {
                    proof {
                        let after = after_borrow(d).children@;
                        let kids_after = after_borrow(d).tree().kids();
                        assert(kids_after =~= kids.push(after[last as int]@)) by {
                            assert forall|j: int| 0 <= j < kids.len() implies kids_after[j] == kids[j] by {
                                assert(after[j] == grown[j]);
                                assert(grown[j] == before[j]);
                                assert(kids[j] == before[j]@);
                            }
                        }
                        assert(after_borrow(d).tree() == top.with_kids(kids_after));
                        assert(after[last as int] == Node::Dir(*final(new_dir)));
                        assert(*after_borrow(n) == Node::Dir(*after_borrow(d)));
                    }
                    Ok(new_dir)
                },
                None => Err(FSError::GenericError),
            }
        },
        Node::File(_) => Err(FSError::NotADir),
    }
}

/// Puts a new file last among the entries of a directory.
fn add_file<'a>(n: &'a mut Node, name: &str, time: SystemTime) -> (r: Result<&'a mut File, FSError>)
    ensures
        old(n)@ is File ==> r is Err && r->Err_0 == FSError::NotADir && final(n)@ == old(n)@,
        old(n)@ is Dir && has_entry(old(n)@, name@) ==> r is Err && r->Err_0 == FSError::Duplicate
            && final(n)@ == old(n)@,
        old(n)@ is Dir && !has_entry(old(n)@, name@) ==> r is Ok && r->Ok_0.tree() == empty_file(
            name@,
            time,
        ) && final(n)@ == old(n)@.with_kids(old(n)@.kids().push(final(r->Ok_0).tree())),
{
    match n {
        Node::Dir(d) => {
            let i = d.position(&chars_of(name));
            if i < d.children.len() {
                return Err(FSError::Duplicate);
            }
            let ghost before = d.children@;
            let ghost kids = d.tree().kids();
            let ghost top = d.tree();
            let file = Node::File(
                File { name: string_of_chars(&chars_of(name)), modified: time, content: Vec::new() },
            );
            d.children.push(file);
            let last: usize = d.children.len() - 1;
            assert(d.children@[last as int] == file);
            let ghost grown = d.children@;
            match as_file_mut(&mut d.children[last]) {
                Some(new_file) => {
                    proof {
                        let after = after_borrow(d).children@;
                        let kids_after = after_borrow(d).tree().kids();
                        assert(kids_after =~= kids.push(after[last as int]@)) by {
                            assert forall|j: int| 0 <= j < kids.len() implies kids_after[j] == kids[j] by {
                                assert(after[j] == grown[j]);
                                assert(grown[j] == before[j]);
                                assert(kids[j] == before[j]@);
                            }
                        }
                        assert(after_borrow(d).tree() == top.with_kids(kids_after));
                        assert(after[last as int] == Node::File(*final(new_file)));
                        assert(*after_borrow(n) == Node::Dir(*after_borrow(d)));
                    }
                    Ok(new_file)
                },
                None => Err(FSError::GenericError),
            }
        },
        Node::File(_) => Err(FSError::NotADir),
    }
}

/// The places that a path resolves to lead to an entry.
pub proof fn lemma_locate_has(root: Tree, path: Seq<char>)
    requires
        resolve(root, path) is Ok,
    ensures
        root.has(resolve(root, path)->Ok_0),
{
    if path != seq!['/'] {
        lemma_locate_leads(root, split_on(path, '/'), 0);
    }
}

proof fn lemma_locate_leads(t: Tree, parts: Seq<Seq<char>>, k: int)
    requires
        locate(t, parts, k) is Ok,
    ensures
        t.has(locate(t, parts, k)->Ok_0),
    decreases parts.len() - k,
{
    if k + 1 < parts.len() {
        let i = first_named(t.kids(), parts[k + 1]);
        lemma_first_named_range(t.kids(), parts[k + 1]);
        lemma_locate_leads(t.kids()[i], parts, k + 1);
        let rest = locate(t.kids()[i], parts, k + 1)->Ok_0;
        assert((seq![i] + rest).drop_first() =~= rest);
    }
}

proof fn lemma_first_named_range(entries: Seq<Tree>, name: Seq<char>)
    ensures
        0 <= first_named(entries, name) <= entries.len(),
    decreases entries.len(),
{
    if entries.len() > 0 && entries[0].name() != name {
        lemma_first_named_range(entries.drop_first(), name);
    }
}

/// To put the entry that is at a place there again changes nothing.
pub proof fn lemma_replace_same(t: Tree, path: Seq<int>)
    requires
        t.has(path),
    ensures
        t.replaced(path, t.at(path)) == t,
    decreases path.len(),
{
    if path.len() > 0 {
        let i = path[0];
        lemma_replace_same(t.kids()[i], path.drop_first());
        assert(t.kids().update(i, t.kids()[i]) =~= t.kids());
    }
}

/// The parts of a path put together again, with `sep` between them.
pub open spec fn joined(parts: Seq<Seq<char>>, sep: char) -> Seq<char>
    decreases parts.len(),
{
    if parts.len() == 0 {
        Seq::empty()
    } else if parts.len() == 1 {
        parts[0]
    } else {
        joined(parts.drop_last(), sep).push(sep) + parts.last()
    }
}

/// Puts the first `n` parts together, with `sep` between them.
fn join(parts: &Vec<Vec<char>>, n: usize, sep: char) -> (r: Vec<char>)
    requires
        n <= parts.len(),
    ensures
        r@ == joined(pieces_of(parts@).take(n as int), sep),
{
    let ghost all = pieces_of(parts@);
    let mut r: Vec<char> = Vec::new();
    let mut i: usize = 0;
    assert(all.take(0) =~= Seq::<Seq<char>>::empty());
    while i < n
        invariant
            i <= n <= parts.len(),
            all == pieces_of(parts@),
            r@ == joined(all.take(i as int), sep),
        decreases n - i,
    {
        let ghost upto = all.take(i + 1);
        assert(upto.drop_last() =~= all.take(i as int));
        assert(upto.last() == parts@[i as int]@);
        if i > 0 {
            r.push(sep);
        }
        crate::text::append_chars(&mut r, &parts[i]);
        i += 1;
        assert(r@ =~= joined(all.take(i as int), sep));
    }
    r
}

/// Takes the entry of a name out of a directory.
fn remove_entry(n: &mut Node, name: &Vec<char>) -> (r: Result<Node, FSError>)
    ensures
        old(n)@ is File ==> r is Err && r->Err_0 == FSError::NotADir && final(n)@ == old(n)@,
        old(n)@ is Dir && !has_entry(old(n)@, name@) ==> r is Err && r->Err_0 == FSError::NotFound
            && final(n)@ == old(n)@,
        old(n)@ is Dir && has_entry(old(n)@, name@) ==> {
            let i = first_named(old(n)@.kids(), name@);
            let entry = old(n)@.kids()[i];
            if entry is Dir && entry.kids().len() > 0 {
                r is Err && r->Err_0 == FSError::DirNotEmpty && final(n)@ == old(n)@
            } else {
                r is Ok && r->Ok_0@ == entry && final(n)@ == old(n)@.with_kids(old(n)@.kids().remove(i))
            }
        },
{
    match n {
        Node::Dir(d) => {
            let i = d.position(name);
            if i < d.children.len() {
                let ghost before = d.children@;
                let ghost kids = d.tree().kids();
                let ghost top = d.tree();
                assert(kids[i as int] == before[i as int]@);
                match &d.children[i] {
                    Node::Dir(inner) => {
                        assert(before[i as int]@.kids().len() == inner.children@.len());
                        if inner.children.len() > 0 {
                            return Err(FSError::DirNotEmpty);
                        }
                    },
                    Node::File(_) => {},
                }
                let node = d.children.remove(i);
                proof {
                    let kids_after = d.tree().kids();
                    assert(kids_after =~= kids.remove(i as int)) by {
                        assert forall|j: int| 0 <= j < kids_after.len() implies kids_after[j] == kids.remove(
                            i as int,
                        )[j] by {
                            if j < i {
                                assert(kids[j] == before[j]@);
                            } else {
                                assert(kids[j + 1] == before[j + 1]@);
                            }
                        }
                    }
                    assert(d.tree() == top.with_kids(kids_after));
                }
                Ok(node)
            } else {
                Err(FSError::NotFound)
            }
        },
        Node::File(_) => Err(FSError::NotADir),
    }
}

/// Sets the moment of change of an entry.
fn retime(n: &mut Node, time: SystemTime)
    ensures
        final(n)@ == old(n)@.retimed(time),
{
    match n {
        Node::Dir(d) => {
            let ghost kids = d.tree().kids();
            d.modified = time;
            assert(d.tree().kids() =~= kids);
        },
        Node::File(f) => {
            f.modified = time;
        },
    }
}

impl Filesystem {
    /// Makes a directory without entries the last entry of the directory
    /// at a path.
    pub fn mkdir(&mut self, path: &str, name: &str) -> (r: Result<&mut Dir, FSError>)
        ensures
            match resolve(old(self)@, path@) {
                Err(e) => r is Err && r->Err_0 == e && final(self)@ == old(self)@,
                Ok(places) => {
                    let dir = old(self)@.at(places);
                    if dir is File {
                        r is Err && r->Err_0 == FSError::NotADir && final(self)@ == old(self)@
                    } else if has_entry(dir, name@) {
                        r is Err && r->Err_0 == FSError::Duplicate && final(self)@ == old(self)@
                    } else {
                        &&& r is Ok
                        &&& r->Ok_0.tree() is Dir
                        &&& r->Ok_0.tree().name() == name@
                        &&& r->Ok_0.tree().kids().len() == 0
                        &&& final(self)@ == old(self)@.replaced(
                            places,
                            dir.with_kids(dir.kids().push(final(r->Ok_0).tree())),
                        )
                    }
                },
            },
    {
        proof {
            if resolve(self@, path@) is Ok {
                lemma_locate_has(self@, path@);
                lemma_replace_same(self@, resolve(self@, path@)->Ok_0);
            }
        }
        match self.get_mut(path) {
            Ok(n) => match add_dir(n, name, now()) {
                Ok(d) => Ok(d),
                Err(e) => Err(e),
            },
            Err(e) => Err(e),
        }
    }

    /// Makes a file without content the last entry of the directory at a
    /// path.
    pub fn create_file(&mut self, path: &str, name: &str) -> (r: Result<&mut File, FSError>)
        ensures
            match resolve(old(self)@, path@) {
                Err(e) => r is Err && r->Err_0 == e && final(self)@ == old(self)@,
                Ok(places) => {
                    let dir = old(self)@.at(places);
                    if dir is File {
                        r is Err && r->Err_0 == FSError::NotADir && final(self)@ == old(self)@
                    } else if has_entry(dir, name@) {
                        r is Err && r->Err_0 == FSError::Duplicate && final(self)@ == old(self)@
                    } else {
                        &&& r is Ok
                        &&& r->Ok_0.tree() is File
                        &&& r->Ok_0.tree().name() == name@
                        &&& r->Ok_0.tree()->File_content.len() == 0
                        &&& final(self)@ == old(self)@.replaced(
                            places,
                            dir.with_kids(dir.kids().push(final(r->Ok_0).tree())),
                        )
                    }
                },
            },
    {
        proof {
            if resolve(self@, path@) is Ok {
                lemma_locate_has(self@, path@);
                lemma_replace_same(self@, resolve(self@, path@)->Ok_0);
            }
        }
        match self.get_mut(path) {
            Ok(n) => match add_file(n, name, now()) {
                Ok(f) => Ok(f),
                Err(e) => Err(e),
            },
            Err(e) => Err(e),
        }
    }

    /// Sets the moment of change of the entry at a path to now.
    pub fn touch(&mut self, path: &str) -> (r: Result<(), FSError>)
        ensures
            match resolve(old(self)@, path@) {
                Err(e) => r == Err::<(), FSError>(e) && final(self)@ == old(self)@,
                Ok(places) => r == Ok::<(), FSError>(()) && exists|t: SystemTime|
                    final(self)@ == #[trigger] old(self)@.replaced(
                        places,
                        old(self)@.at(places).retimed(t),
                    ),
            },
    {
        let time = now();
        match self.get_mut(path) {
            Ok(n) => {
                retime(n, time);
                Ok(())
            },
            Err(e) => Err(e),
        }
    }

    /// Takes the entry at a path out of its directory: a file, or a
    /// directory without entries. The path is cut at its slashes; the last
    /// part is the entry's name, the parts before it are the path of its
    /// directory.
    pub fn delete(&mut self, path: &str) -> (r: Result<Node, FSError>)
        ensures
            ({
                let parts = split_on(path@, '/');
                match resolve(old(self)@, joined(parts.drop_last(), '/')) {
                    Err(e) => r is Err && r->Err_0 == e && final(self)@ == old(self)@,
                    Ok(places) => {
                        let dir = old(self)@.at(places);
                        let i = first_named(dir.kids(), parts.last());
                        if dir is File {
                            r is Err && r->Err_0 == FSError::NotADir && final(self)@ == old(self)@
                        } else if !has_entry(dir, parts.last()) {
                            r is Err && r->Err_0 == FSError::NotFound && final(self)@ == old(self)@
                        } else if dir.kids()[i] is Dir && dir.kids()[i].kids().len() > 0 {
                            r is Err && r->Err_0 == FSError::DirNotEmpty && final(self)@ == old(self)@
                        } else {
                            r is Ok && r->Ok_0@ == dir.kids()[i] && final(self)@ == old(self)@.replaced(
                                places,
                                dir.with_kids(dir.kids().remove(i)),
                            )
                        }
                    },
                }
            }),
    {
        let chars = chars_of(path);
        let parts = split_chars(&chars, '/');
        let last: usize = parts.len() - 1;
        let parent = join(&parts, last, '/');
        assert(pieces_of(parts@).take(last as int) =~= pieces_of(parts@).drop_last());
        assert(pieces_of(parts@).last() == parts@[last as int]@);
        let parent_path = string_of_chars(&parent);
        proof {
            if resolve(self@, parent_path@) is Ok {
                lemma_locate_has(self@, parent_path@);
                lemma_replace_same(self@, resolve(self@, parent_path@)->Ok_0);
            }
        }
        match self.get_mut(parent_path.as_str()) {
            Ok(n) => remove_entry(n, &parts[last]),
            Err(e) => Err(e),
        }
    }
}

/// How many entries the first `k` entries of a directory hold, themselves
/// and all below them.
pub open spec fn weight_of_kids(t: Tree, k: int) -> nat
    decreases t, k,
{
    if k <= 0 || k > t.kids().len() || !(t is Dir) {
        0
    } else {
        weight_of_kids(t, k - 1) + weight(t->Dir_children[k - 1])
    }
}

/// How many entries a tree holds.
pub open spec fn weight(t: Tree) -> nat
    decreases t, t.kids().len() + 1,
{
    1 + weight_of_kids(t, t.kids().len() as int)
}

/// An entry that waits to be visited, with its path.
pub type Visit = (Seq<char>, Tree);

/// How many entries the trees of a queue hold.
pub open spec fn queue_weight(queue: Seq<Visit>) -> nat
    decreases queue.len(),
{
    if queue.len() == 0 {
        0
    } else {
        queue_weight(queue.drop_last()) + weight(queue.last().1)
    }
}

/// The entries of a directory as they are put in the queue: each with the
/// directory's path, a slash and its own name as its path.
pub open spec fn visits_of_kids(path: Seq<char>, t: Tree) -> Seq<Visit> {
    Seq::new(t.kids().len(), |i: int| (path.push('/') + t.kids()[i].name(), t.kids()[i]))
}

proof fn lemma_weight_concat(a: Seq<Visit>, b: Seq<Visit>)
    ensures
        queue_weight(a + b) == queue_weight(a) + queue_weight(b),
    decreases b.len(),
{
    if b.len() == 0 {
        assert(a + b =~= a);
    } else {
        assert((a + b).drop_last() =~= a + b.drop_last());
        lemma_weight_concat(a, b.drop_last());
    }
}

proof fn lemma_weight_kids(path: Seq<char>, t: Tree, k: int)
    requires
        0 <= k <= t.kids().len(),
    ensures
        queue_weight(visits_of_kids(path, t).take(k)) == weight_of_kids(t, k),
    decreases k,
{
    let all = visits_of_kids(path, t);
    if k > 0 {
        lemma_weight_kids(path, t, k - 1);
        assert(all.take(k).drop_last() =~= all.take(k - 1));
    }
}

proof fn lemma_weight_step(queue: Seq<Visit>)
    requires
        queue.len() > 0,
    ensures
        queue_weight(queue.drop_first() + visits_of_kids(queue[0].0, queue[0].1)) + 1 == queue_weight(
            queue,
        ),
{
    let (path, t) = queue[0];
    let kids = visits_of_kids(path, t);
    lemma_weight_concat(queue.drop_first(), kids);
    lemma_weight_kids(path, t, t.kids().len() as int);
    assert(kids.take(t.kids().len() as int) =~= kids);
    assert(seq![queue[0]] + queue.drop_first() =~= queue);
    lemma_weight_concat(seq![queue[0]], queue.drop_first());
    assert(seq![queue[0]].drop_last() =~= Seq::<Visit>::empty());
    assert(seq![queue[0]].last() == queue[0]);
    assert(queue_weight(Seq::<Visit>::empty()) == 0);
    assert(queue_weight(seq![queue[0]]) == weight(t));
    assert(queue_weight(kids) == weight_of_kids(t, t.kids().len() as int));
}

/// The visits of a walk that goes level by level: the first entry of the
/// queue is visited, its entries join the queue at the back, and so on
/// until the queue is empty.
pub open spec fn visits(queue: Seq<Visit>) -> Seq<Visit>
    decreases queue_weight(queue),
    via visits_decreases
{
    if queue.len() == 0 {
        Seq::empty()
    } else {
        seq![queue[0]] + visits(queue.drop_first() + visits_of_kids(queue[0].0, queue[0].1))
    }
}

#[via_fn]
proof fn visits_decreases(queue: Seq<Visit>) {
    if queue.len() > 0 {
        lemma_weight_step(queue);
    }
}

/// The visits that a queue of paths and nodes holds.
pub open spec fn queue_view(queue: Seq<(Vec<char>, &Node)>) -> Seq<Visit> {
    queue.map_values(|e: (Vec<char>, &Node)| (e.0@, (*e.1)@))
}

/// The visits that a vector of paths and nodes holds.
pub open spec fn walk_view(steps: Seq<(String, &Node)>) -> Seq<Visit> {
    steps.map_values(|e: (String, &Node)| (e.0@, (*e.1)@))
}

impl Filesystem {
    /// Every entry with its path, level by level from the root: the root
    /// with the empty path, then its entries in their order, then theirs.
    pub fn walk(&self) -> (steps: Vec<(String, &Node)>)
        ensures
            walk_view(steps@) == visits(seq![(Seq::<char>::empty(), self@)]),
    {
        let mut steps: Vec<(String, &Node)> = Vec::new();
        let mut visit: VecDeque<(Vec<char>, &Node)> = VecDeque::new();
        visit.push_back((Vec::new(), &self.root));
        let ghost goal = visits(seq![(Seq::<char>::empty(), self@)]);
        assert(queue_view(visit@) =~= seq![(Seq::<char>::empty(), self@)]);
        assert(walk_view(steps@) + visits(queue_view(visit@)) =~= goal);
        loop
            invariant
                walk_view(steps@) + visits(queue_view(visit@)) == goal,
            ensures
                walk_view(steps@) == goal,
            decreases queue_weight(queue_view(visit@)),
        {
            let ghost queue = queue_view(visit@);
            let ghost done = walk_view(steps@);
            match visit.pop_front() {
                None => {
                    assert(queue.len() == 0);
                    assert(done + Seq::<Visit>::empty() =~= done);
                    break;
                },
                Some((path, n)) => {
                    assert(queue[0] == (path@, n@));
                    assert(queue_view(visit@) =~= queue.drop_first());
                    proof {
                        lemma_weight_step(queue);
                    }
                    let ghost kids = visits_of_kids(path@, n@);
                    match n {
                        Node::Dir(d) => {
                            let mut i: usize = 0;
                            assert(kids.take(0) =~= Seq::<Visit>::empty());
                            assert(queue.drop_first() + kids.take(0) =~= queue.drop_first());
                            while i < d.children.len()
                                invariant
                                    i <= d.children.len(),
                                    *n == Node::Dir(*d),
                                    kids == visits_of_kids(path@, n@),
                                    kids.len() == d.children@.len(),
                                    queue_view(visit@) == queue.drop_first() + kids.take(i as int),
                                decreases d.children.len() - i,
                            {
                                let ghost before = queue_view(visit@);
                                let child = &d.children[i];
                                assert(n@.kids()[i as int] == child@);
                                let mut child_path: Vec<char> = Vec::new();
                                crate::text::append_chars(&mut child_path, &path);
                                child_path.push('/');
                                crate::text::append_chars(&mut child_path, &chars_of(child.name()));
                                assert(child_path@ =~= path@.push('/') + child@.name());
                                visit.push_back((child_path, child));
                                assert(queue_view(visit@) =~= before.push(kids[i as int]));
                                i += 1;
                                assert(kids.take(i as int) =~= kids.take(i - 1).push(kids[i - 1]));
                                assert(queue_view(visit@) =~= queue.drop_first() + kids.take(i as int));
                            }
                            assert(kids.take(i as int) =~= kids);
                        },
                        Node::File(_) => {
                            assert(kids =~= Seq::<Visit>::empty());
                            assert(queue.drop_first() + kids =~= queue.drop_first());
                        },
                    }
                    let text = string_of_chars(&path);
                    steps.push((text, n));
                    assert(walk_view(steps@) =~= done.push(queue[0]));
                    assert(walk_view(steps@) + visits(queue_view(visit@)) =~= done + (seq![queue[0]]
                        + visits(queue.drop_first() + kids)));
                },
            }
        }
        steps
    }
}

/// An entry that a query found.
pub struct MatchResult<'a> {
    /// The query that the entry met.
    pub q: &'a str,
    /// Always empty.
    pub path: String,
    pub node: &'a Node,
}

/// A query and an entry that meets it.
pub type Hit = (Seq<char>, Tree);

/// Whether a query can be put: a query for a type, a name or a part of a
/// name has a colon and what is asked for behind it.
pub open spec fn query_ok(q: Seq<char>) -> bool {
    let parts = split_on(q, ':');
    parts[0] == "type"@ || parts[0] == "name"@ || parts[0] == "partname"@ ==> parts.len() >= 2
}

/// Whether an entry meets a query: `type:dir` asks for a directory,
/// `type:file` for a file, `name:` with a name for an entry of that name,
/// `partname:` with a text for an entry with that text in its name. What
/// follows a second colon is not read. No entry meets any other query.
pub open spec fn meets(q: Seq<char>, t: Tree) -> bool {
    let parts = split_on(q, ':');
    if parts[0] == "type"@ {
        if t is Dir {
            parts[1] == "dir"@
        } else {
            parts[1] == "file"@
        }
    } else if parts[0] == "name"@ {
        t.name() == parts[1]
    } else if parts[0] == "partname"@ {
        has_part(t.name(), parts[1])
    } else {
        false
    }
}

/// The first `k` queries that an entry meets, each with the entry.
pub open spec fn hits_of(t: Tree, qs: Seq<Seq<char>>, k: int) -> Seq<Hit>
    decreases k,
{
    if k <= 0 {
        Seq::empty()
    } else if meets(qs[k - 1], t) {
        hits_of(t, qs, k - 1).push((qs[k - 1], t))
    } else {
        hits_of(t, qs, k - 1)
    }
}

/// For each visit in its order, the queries that its entry meets.
pub open spec fn hits(order: Seq<Visit>, qs: Seq<Seq<char>>) -> Seq<Hit>
    decreases order.len(),
{
    if order.len() == 0 {
        Seq::empty()
    } else {
        hits(order.drop_last(), qs) + hits_of(order.last().1, qs, qs.len() as int)
    }
}

/// The queries that a slice holds.
pub open spec fn queries_of(qs: Seq<&str>) -> Seq<Seq<char>> {
    qs.map_values(|q: &str| q@)
}

/// The hits that a vector of results holds.
pub open spec fn found_view(r: Seq<MatchResult<'_>>) -> Seq<Hit> {
    r.map_values(|m: MatchResult<'_>| (m.q@, (*m.node)@))
}

impl Filesystem {
    /// Whether an entry meets a query.
    pub fn do_match(qs: &str, n: &Node) -> (b: bool)
        requires
            query_ok(qs@),
        ensures
            b == meets(qs@, n@),
    {
        let parts = split_chars(&chars_of(qs), ':');
        assert(pieces_of(parts@)[0] == parts@[0]@);
        let kind = &parts[0];
        let name = chars_of(n.name());
        if same_chars(kind, &chars_of("type")) {
            assert(pieces_of(parts@)[1] == parts@[1]@);
            match n {
                Node::Dir(_) => same_chars(&parts[1], &chars_of("dir")),
                Node::File(_) => same_chars(&parts[1], &chars_of("file")),
            }
        } else if same_chars(kind, &chars_of("name")) {
            assert(pieces_of(parts@)[1] == parts@[1]@);
            same_chars(&name, &parts[1])
        } else if same_chars(kind, &chars_of("partname")) {
            assert(pieces_of(parts@)[1] == parts@[1]@);
            contains_chars(&name, &parts[1])
        } else {
            false
        }
    }

    /// Every entry that meets one of the queries, once for each query
    /// that it meets: the entries level by level from the root, the
    /// queries of an entry in their order.
    pub fn find<'a>(&'a self, qs: &[&'a str]) -> (r: Vec<MatchResult<'a>>)
        requires
            forall|i: int| 0 <= i < qs@.len() ==> query_ok(#[trigger] qs@[i]@),
        ensures
            found_view(r@) == hits(visits(seq![(Seq::<char>::empty(), self@)]), queries_of(qs@)),
            forall|i: int| 0 <= i < r@.len() ==> (#[trigger] r@[i]).path@ == Seq::<char>::empty(),
    {
        let steps = self.walk();
        let ghost order = walk_view(steps@);
        let ghost asked = queries_of(qs@);
        let mut res: Vec<MatchResult<'a>> = Vec::new();
        let mut i: usize = 0;
        assert(order.take(0) =~= Seq::<Visit>::empty());
        assert(found_view(res@) =~= Seq::<Hit>::empty());
        while i < steps.len()
            invariant
                i <= steps.len(),
                order == walk_view(steps@),
                asked == queries_of(qs@),
                forall|k: int| 0 <= k < qs@.len() ==> query_ok(#[trigger] qs@[k]@),
                found_view(res@) == hits(order.take(i as int), asked),
                forall|k: int| 0 <= k < res@.len() ==> (#[trigger] res@[k]).path@ == Seq::<char>::empty(),
            decreases steps.len() - i,
        {
            let n: &'a Node = steps[i].1;
            let ghost before = found_view(res@);
            let ghost t = n@;
            assert(order[i as int].1 == t);
            assert(order.take(i + 1).drop_last() =~= order.take(i as int));
            assert(order.take(i + 1).last() == order[i as int]);
            let mut j: usize = 0;
            assert(before + hits_of(t, asked, 0) =~= before);
            while j < qs.len()
                invariant
                    j <= qs.len(),
                    asked == queries_of(qs@),
                    t == n@,
                    forall|k: int| 0 <= k < qs@.len() ==> query_ok(#[trigger] qs@[k]@),
                    found_view(res@) == before + hits_of(t, asked, j as int),
                    forall|k: int|
                        0 <= k < res@.len() ==> (#[trigger] res@[k]).path@ == Seq::<char>::empty(),
                decreases qs.len() - j,
            {
                let q: &'a str = qs[j];
                assert(asked[j as int] == q@);
                assert(query_ok(qs@[j as int]@));
                if Filesystem::do_match(q, n) {
                    let ghost sofar = found_view(res@);
                    res.push(MatchResult { q: q, path: String::new(), node: n });
                    assert(found_view(res@) =~= sofar.push((q@, t)));
                }
                j += 1;
                assert(found_view(res@) =~= before + hits_of(t, asked, j as int));
            }
            i += 1;
        }
        assert(order.take(i as int) =~= order);
        res
    }
}

} // verus!
