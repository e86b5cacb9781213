//! The index of executables found on the search path, built once from the
//! listings of the search-path directories.
use vstd::prelude::*;
use vstd::string::*;
use crate::builtin::str_equal;

verus! {

/// One entry of a directory as it was read: its file name, its full path,
/// and whether it is a regular file.
pub struct DirEntryInfo {
    pub name: String,
    pub path: String,
    pub is_file: bool,
}

/// A name-to-path map of the executables on the search path. Each name
/// occurs once.
pub struct ExecutableIndex {
    entries: Vec<(String, String)>,
}

/// The `(name, path)` pairs of the regular files of one listing, in order.
pub open spec fn regular_files(l: Seq<DirEntryInfo>) -> Seq<(Seq<char>, Seq<char>)>
    decreases l.len(),
{
    if l.len() == 0 {
        Seq::empty()
    } else if l.last().is_file {
        regular_files(l.drop_last()).push((l.last().name@, l.last().path@))
    } else {
        regular_files(l.drop_last())
    }
}

/// The regular files of all directories in search-path order. A directory
/// given as `None` (absent, or not a directory) has none.
pub open spec fn files_in(dirs: Seq<Option<Vec<DirEntryInfo>>>) -> Seq<(Seq<char>, Seq<char>)>
    decreases dirs.len(),
{
    if dirs.len() == 0 {
        Seq::empty()
    } else {
        files_in(dirs.drop_last()) + match dirs.last() {
            Some(l) => regular_files(l@),
            None => Seq::empty(),
        }
    }
}

/// The map in which each name goes to the path of its first occurrence.
pub open spec fn first_wins(es: Seq<(Seq<char>, Seq<char>)>) -> Map<Seq<char>, Seq<char>>
    decreases es.len(),
{
    if es.len() == 0 {
        Map::empty()
    } else {
        let m = first_wins(es.drop_last());
        if m.contains_key(es.last().0) {
            m
        } else {
            m.insert(es.last().0, es.last().1)
        }
    }
}

/// The index that the listings of the search-path directories give.
pub open spec fn index_of(dirs: Seq<Option<Vec<DirEntryInfo>>>) -> Map<Seq<char>, Seq<char>> {
    first_wins(files_in(dirs))
}

pub open spec fn pair_view(e: (String, String)) -> (Seq<char>, Seq<char>) {
    (e.0@, e.1@)
}

/// A name is in `first_wins(es)` exactly when some pair has it.
pub proof fn lemma_first_wins_contains(es: Seq<(Seq<char>, Seq<char>)>, k: Seq<char>)
    ensures
        first_wins(es).contains_key(k) <==> exists|i: int| 0 <= i < es.len() && #[trigger] es[i].0
            == k,
    decreases es.len(),
{
    if es.len() > 0 {
        let p = es.drop_last();
        lemma_first_wins_contains(p, k);
        if first_wins(p).contains_key(k) {
            let i = choose|i: int| 0 <= i < p.len() && #[trigger] p[i].0 == k;
            assert(es[i].0 == k);
        }
        if exists|i: int| 0 <= i < es.len() && #[trigger] es[i].0 == k {
            let i = choose|i: int| 0 <= i < es.len() && #[trigger] es[i].0 == k;
            if i < p.len() {
                assert(p[i].0 == k);
            }
        }
    }
}

/// A name goes to the path of the first pair that has it.
pub proof fn lemma_first_wins_value(es: Seq<(Seq<char>, Seq<char>)>, k: Seq<char>, i: int)
    requires
        0 <= i < es.len(),
        es[i].0 == k,
        forall|j: int| 0 <= j < i ==> #[trigger] es[j].0 != k,
    ensures
        first_wins(es).contains_key(k),
        first_wins(es)[k] == es[i].1,
    decreases es.len(),
{
    let p = es.drop_last();
    if i < p.len() {
        assert forall|j: int| 0 <= j < i implies #[trigger] p[j].0 != k by {
            assert(es[j].0 != k);
        }
        lemma_first_wins_value(p, k, i);
    } else {
        lemma_first_wins_contains(p, k);
        assert forall|j: int| 0 <= j < p.len() implies #[trigger] p[j].0 != k by {
            assert(es[j].0 != k);
        }
    }
}

/// Whether a listing holds a regular file named `name`.
pub open spec fn dir_has_file(d: Option<Vec<DirEntryInfo>>, name: Seq<char>) -> bool {
    match d {
        Some(l) => exists|j: int| 0 <= j < l@.len() && #[trigger] l@[j].is_file && l@[j].name@ == name,
        None => false,
    }
}

pub proof fn lemma_regular_files_concat(a: Seq<DirEntryInfo>, b: Seq<DirEntryInfo>)
    ensures
        regular_files(a + b) == regular_files(a) + regular_files(b),
    decreases b.len(),
{
    if b.len() == 0 {
        assert(a + b =~= a);
        assert(regular_files(a) + regular_files(b) =~= regular_files(a));
    } else {
        lemma_regular_files_concat(a, b.drop_last());
        assert((a + b).drop_last() =~= a + b.drop_last());
        assert(regular_files(a) + regular_files(b.drop_last()).push((b.last().name@, b.last().path@))
            =~= (regular_files(a) + regular_files(b.drop_last())).push(
            (b.last().name@, b.last().path@),
        ));
    }
}

pub proof fn lemma_files_in_concat(x: Seq<Option<Vec<DirEntryInfo>>>, y: Seq<Option<Vec<DirEntryInfo>>>)
    ensures
        files_in(x + y) == files_in(x) + files_in(y),
    decreases y.len(),
{
    if y.len() == 0 {
        assert(x + y =~= x);
        assert(files_in(x) + files_in(y) =~= files_in(x));
    } else {
        lemma_files_in_concat(x, y.drop_last());
        assert((x + y).drop_last() =~= x + y.drop_last());
        let t = match y.last() {
            Some(l) => regular_files(l@),
            None => Seq::empty(),
        };
        assert(files_in(x) + (files_in(y.drop_last()) + t) =~= (files_in(x) + files_in(
            y.drop_last(),
        )) + t);
    }
}

/// Every pair of `regular_files(l)` comes from a regular file of `l`.
proof fn lemma_regular_files_from(l: Seq<DirEntryInfo>, i: int)
    requires
        0 <= i < regular_files(l).len(),
    ensures
        exists|j: int|
            0 <= j < l.len() && #[trigger] l[j].is_file && l[j].name@ == regular_files(l)[i].0
                && l[j].path@ == regular_files(l)[i].1,
    decreases l.len(),
{
    let p = l.drop_last();
    if i < regular_files(p).len() {
        lemma_regular_files_from(p, i);
        let j = choose|j: int|
            0 <= j < p.len() && #[trigger] p[j].is_file && p[j].name@ == regular_files(p)[i].0
                && p[j].path@ == regular_files(p)[i].1;
        assert(l[j] == p[j]);
    } else {
        assert(l[l.len() - 1].is_file);
    }
}

/// Every pair of `files_in(dirs)` comes from a regular file of one of them.
proof fn lemma_files_in_from(dirs: Seq<Option<Vec<DirEntryInfo>>>, i: int)
    requires
        0 <= i < files_in(dirs).len(),
    ensures
        exists|b: int| 0 <= b < dirs.len() && #[trigger] dir_has_file(dirs[b], files_in(dirs)[i].0),
    decreases dirs.len(),
{
    let p = dirs.drop_last();
    if i < files_in(p).len() {
        lemma_files_in_from(p, i);
        let b = choose|b: int| 0 <= b < p.len() && #[trigger] dir_has_file(p[b], files_in(p)[i].0);
        assert(dirs[b] == p[b]);
        assert(files_in(dirs)[i] == files_in(p)[i]);
        assert(dir_has_file(dirs[b], files_in(dirs)[i].0));
    } else {
        let k = i - files_in(p).len();
        match dirs.last() {
            Some(l) => {
                assert(files_in(dirs)[i] == regular_files(l@)[k]);
                lemma_regular_files_from(l@, k);
                let j = choose|j: int|
                    0 <= j < l@.len() && #[trigger] l@[j].is_file && l@[j].name@
                        == regular_files(l@)[k].0 && l@[j].path@ == regular_files(l@)[k].1;
                assert(l@[j].is_file && l@[j].name@ == files_in(dirs)[i].0);
                assert(dir_has_file(dirs[dirs.len() - 1], files_in(dirs)[i].0));
            },
            None => {
                assert(files_in(dirs) =~= files_in(p));
            },
        }
    }
}

/// A directory that is absent, or not a directory, adds nothing to the
/// index and does not keep the directories after it from being indexed.
pub proof fn lemma_missing_dir_ignored(dirs: Seq<Option<Vec<DirEntryInfo>>>, k: int)
    requires
        0 <= k <= dirs.len(),
    ensures
        index_of(dirs.insert(k, None)) == index_of(dirs),
{
    let x = dirs.subrange(0, k);
    let y = dirs.subrange(k, dirs.len() as int);
    assert(dirs.insert(k, None) =~= x + (seq![None] + y));
    assert(dirs =~= x + y);
    lemma_files_in_concat(x, seq![None] + y);
    lemma_files_in_concat(seq![None], y);
    lemma_files_in_concat(x, y);
    assert(seq![None::<Vec<DirEntryInfo>>].drop_last() =~= Seq::empty());
    assert(files_in(Seq::<Option<Vec<DirEntryInfo>>>::empty()) =~= Seq::empty());
    assert(files_in(seq![None::<Vec<DirEntryInfo>>]) =~= Seq::empty());
    assert(Seq::empty() + files_in(y) =~= files_in(y));
}

/// When several directories hold a regular file of the same name, the name
/// resolves to the first such file in the earliest of them: a later
/// directory never overrides an earlier one.
pub proof fn lemma_earliest_dir_wins(
    dirs: Seq<Option<Vec<DirEntryInfo>>>,
    a: int,
    j: int,
    name: Seq<char>,
)
    requires
        0 <= a < dirs.len(),
        dirs[a] is Some,
        0 <= j < dirs[a]->Some_0@.len(),
        dirs[a]->Some_0@[j].is_file,
        dirs[a]->Some_0@[j].name@ == name,
        forall|jj: int|
            0 <= jj < j ==> !(#[trigger] dirs[a]->Some_0@[jj].is_file && dirs[a]->Some_0@[jj].name@
                == name),
        forall|b: int| 0 <= b < a ==> !#[trigger] dir_has_file(dirs[b], name),
    ensures
        index_of(dirs).contains_key(name),
        index_of(dirs)[name] == dirs[a]->Some_0@[j].path@,
{
    let l = dirs[a]->Some_0@;
    let x = dirs.subrange(0, a);
    let y = dirs.subrange(a + 1, dirs.len() as int);
    assert(dirs =~= x + (seq![dirs[a]] + y));
    lemma_files_in_concat(x, seq![dirs[a]] + y);
    lemma_files_in_concat(seq![dirs[a]], y);
    assert(seq![dirs[a]].drop_last() =~= Seq::empty());
    assert(files_in(Seq::<Option<Vec<DirEntryInfo>>>::empty()) =~= Seq::empty());
    assert(Seq::empty() + regular_files(l) =~= regular_files(l));
    assert(files_in(seq![dirs[a]]) == regular_files(l));
    let l0 = l.subrange(0, j);
    let l1 = l.subrange(j, l.len() as int);
    assert(l =~= l0 + l1);
    lemma_regular_files_concat(l0, l1);
    lemma_regular_files_concat(seq![l[j]], l1.drop_first());
    assert(l1 =~= seq![l[j]] + l1.drop_first());
    assert(seq![l[j]].drop_last() =~= Seq::<DirEntryInfo>::empty());
    assert(regular_files(Seq::<DirEntryInfo>::empty()) =~= Seq::empty());
    assert(regular_files(seq![l[j]]) =~= seq![(name, l[j].path@)]);
    let fx = files_in(x);
    let f0 = regular_files(l0);
    let es = files_in(dirs);
    let f2 = regular_files(l1.drop_first());
    assert(regular_files(l) == f0 + (seq![(name, l[j].path@)] + f2));
    assert(es == fx + (regular_files(l) + files_in(y)));
    assert(es =~= fx + f0 + seq![(name, l[j].path@)] + f2 + files_in(y));
    let i = (fx.len() + f0.len()) as int;
    assert(es[i] == (name, l[j].path@));
    assert forall|q: int| 0 <= q < i implies #[trigger] es[q].0 != name by {
        if q < fx.len() {
            assert(es[q] == fx[q]);
            lemma_files_in_from(x, q);
            let b = choose|b: int| 0 <= b < x.len() && #[trigger] dir_has_file(x[b], fx[q].0);
            assert(x[b] == dirs[b]);
        } else {
            assert(es[q] == f0[q - fx.len()]);
            lemma_regular_files_from(l0, q - fx.len());
            let jj = choose|jj: int|
                0 <= jj < l0.len() && #[trigger] l0[jj].is_file && l0[jj].name@ == f0[q
                    - fx.len()].0 && l0[jj].path@ == f0[q - fx.len()].1;
            assert(l0[jj] == l[jj]);
        }
    }
    lemma_first_wins_value(es, name, i);
}

impl View for ExecutableIndex {
    type V = Map<Seq<char>, Seq<char>>;

    /// Each indexed name with its path.
    closed spec fn view(&self) -> Map<Seq<char>, Seq<char>> {
        first_wins(self.pairs())
    }
}

impl ExecutableIndex {
    /// The entries as `(name, path)` character sequences, in order.
    pub closed spec fn pairs(&self) -> Seq<(Seq<char>, Seq<char>)> {
        self.entries@.map_values(|e: (String, String)| pair_view(e))
    }

    /// Each name occurs once.
    pub closed spec fn wf(&self) -> bool {
        forall|i: int, j: int|
            0 <= i < j < self.pairs().len() ==> #[trigger] self.pairs()[i].0 != #[trigger] self.pairs()[j].0
    }

    /// The position of the first entry named `name`, if any.
    fn position(&self, name: &str) -> (r: Option<usize>)
        ensures
            match r {
                Some(i) => i < self.pairs().len() && self.pairs()[i as int].0 == name@ && forall|
                    j: int,
                | 0 <= j < i ==> self.pairs()[j].0 != name@,
                None => forall|j: int| 0 <= j < self.pairs().len() ==> self.pairs()[j].0 != name@,
            },
    {
        let mut i: usize = 0;
        while i < self.entries.len()
            invariant
                i <= self.entries.len(),
                forall|j: int| 0 <= j < i ==> self.pairs()[j].0 != name@,
            decreases self.entries.len() - i,
        {
            if str_equal(name, self.entries[i].0.as_str()) {
                return Some(i);
            }
            i = i + 1;
        }
        None
    }

    /// The path that `name` resolves to, if any executable has that name.
    pub fn resolve(&self, name: &str) -> (r: Option<String>)
        ensures
            match r {
                Some(p) => self@.contains_key(name@) && p@ == self@[name@],
                None => !self@.contains_key(name@),
            },
    {
        match self.position(name) {
            Some(i) => {
                proof {
                    lemma_first_wins_value(self.pairs(), name@, i as int);
                }
                Some(self.entries[i].1.clone())
            },
            None => {
                proof {
                    lemma_first_wins_contains(self.pairs(), name@);
                }
                None
            },
        }
    }
}

/// Builds the index from the listings of the search-path directories, in
/// search-path order. A directory given as `None` (absent, or not a
/// directory) is skipped; entries that are not regular files are left out;
/// a name already indexed keeps the path it was first found at.
pub fn map_executables(dirs: &Vec<Option<Vec<DirEntryInfo>>>) -> (r: ExecutableIndex)
    ensures
        r.wf(),
        r@ == index_of(dirs@),
{
    let mut index = ExecutableIndex { entries: Vec::new() };
    let mut d: usize = 0;
    assert(index.pairs() =~= Seq::empty());
    assert(dirs@.subrange(0, 0) =~= Seq::empty());
    while d < dirs.len()
        invariant
            d <= dirs.len(),
            index.wf(),
            index@ == first_wins(files_in(dirs@.subrange(0, d as int))),
        decreases dirs.len() - d,
    {
        let ghost before = files_in(dirs@.subrange(0, d as int));
        assert(dirs@.subrange(0, d + 1).drop_last() =~= dirs@.subrange(0, d as int));
        match &dirs[d] {
            None => {
                assert(files_in(dirs@.subrange(0, d + 1)) =~= before);
            },
            Some(list) => {
                let mut j: usize = 0;
                assert(before + regular_files(list@.subrange(0, 0)) =~= before);
                while j < list.len()
                    invariant
                        j <= list.len(),
                        index.wf(),
                        index@ == first_wins(before + regular_files(list@.subrange(0, j as int))),
                    decreases list.len() - j,
                {
                    let ghost so_far = before + regular_files(list@.subrange(0, j as int));
                    assert(list@.subrange(0, j + 1).drop_last() =~= list@.subrange(0, j as int));
                    let e = &list[j];
                    if e.is_file {
                        let ghost x = (e.name@, e.path@);
                        assert(before + regular_files(list@.subrange(0, j + 1)) =~= so_far.push(x));
                        assert(so_far.push(x).drop_last() =~= so_far);
                        proof {
                            lemma_first_wins_contains(index.pairs(), e.name@);
                        }
                        match index.position(e.name.as_str()) {
                            Some(_) => {},
                            None => {
                                let ghost old_pairs = index.pairs();
                                index.entries.push((e.name.clone(), e.path.clone()));
                                assert(index.pairs() =~= old_pairs.push(x));
                                assert(index.pairs().drop_last() =~= old_pairs);
                            },
                        }
                    } else {
                        assert(before + regular_files(list@.subrange(0, j + 1)) =~= so_far);
                    }
                    j = j + 1;
                }
                assert(list@.subrange(0, list.len() as int) =~= list@);
            },
        }
        d = d + 1;
    }
    assert(dirs@.subrange(0, dirs.len() as int) =~= dirs@);
    index
}

} // verus!
