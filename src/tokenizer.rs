//! Splitting an input line into commands, and each command into words.
use vstd::prelude::*;
use vstd::string::*;

verus! {

/// The characters that `char::is_whitespace` accepts: those with the Unicode
/// `White_Space` property.
pub open spec fn is_ws(c: char) -> bool {
    let u = c as u32;
    (0x9 <= u && u <= 0xd) || u == 0x20 || u == 0x85 || u == 0xa0 || u == 0x1680 || (0x2000 <= u
        && u <= 0x200a) || u == 0x2028 || u == 0x2029 || u == 0x202f || u == 0x205f || u == 0x3000
}

/// The character that separates commands on one line.
pub open spec fn is_separator(c: char) -> bool {
    c == ';'
}

/// The pieces of `s` between separators, as `str::split(';')` gives them:
/// one more piece than there are separators, empty pieces included.
pub open spec fn segments(s: Seq<char>) -> Seq<Seq<char>>
    decreases s.len(),
{
    if s.len() == 0 {
        seq![Seq::empty()]
    } else {
        let p = segments(s.drop_last());
        if is_separator(s.last()) {
            p.push(Seq::empty())
        } else {
            p.drop_last().push(p.last().push(s.last()))
        }
    }
}

/// The pieces of `s` between whitespace characters, empty pieces included.
pub open spec fn pieces(s: Seq<char>) -> Seq<Seq<char>>
    decreases s.len(),
{
    if s.len() == 0 {
        seq![Seq::empty()]
    } else {
        let p = pieces(s.drop_last());
        if is_ws(s.last()) {
            p.push(Seq::empty())
        } else {
            p.drop_last().push(p.last().push(s.last()))
        }
    }
}

/// `s` without its empty elements, in order.
pub open spec fn drop_empty<A>(s: Seq<Seq<A>>) -> Seq<Seq<A>>
    decreases s.len(),
{
    if s.len() == 0 {
        s
    } else if s.last().len() == 0 {
        drop_empty(s.drop_last())
    } else {
        drop_empty(s.drop_last()).push(s.last())
    }
}

/// The words of `s`: its maximal runs of non-whitespace characters, as
/// `str::split_whitespace` gives them.
pub open spec fn words(s: Seq<char>) -> Seq<Seq<char>> {
    drop_empty(pieces(s))
}

/// The commands of a line: each separated segment split into words, with
/// the segments that hold no word left out.
pub open spec fn command_store(line: Seq<char>) -> Seq<Seq<Seq<char>>> {
    drop_empty(segments(line).map_values(|seg: Seq<char>| words(seg)))
}

pub proof fn lemma_segments_len(s: Seq<char>)
    ensures
        segments(s).len() >= 1,
    decreases s.len(),
{
    if s.len() > 0 {
        lemma_segments_len(s.drop_last());
    }
}

pub proof fn lemma_pieces_len(s: Seq<char>)
    ensures
        pieces(s).len() >= 1,
    decreases s.len(),
{
    if s.len() > 0 {
        lemma_pieces_len(s.drop_last());
    }
}

pub proof fn lemma_drop_empty_nonempty<A>(s: Seq<Seq<A>>)
    ensures
        forall|i: int| 0 <= i < drop_empty(s).len() ==> #[trigger] drop_empty(s)[i].len() > 0,
    decreases s.len(),
{
    if s.len() > 0 {
        lemma_drop_empty_nonempty(s.drop_last());
        let d = drop_empty(s.drop_last());
        assert forall|i: int| 0 <= i < drop_empty(s).len() implies #[trigger] drop_empty(s)[i].len()
            > 0 by {
            if i < d.len() {
                assert(drop_empty(s)[i] == d[i]);
            }
        }
    }
}

/// No command is empty and no word is empty, whatever the line.
pub proof fn lemma_command_store_nonempty(line: Seq<char>)
    ensures
        forall|i: int|
            0 <= i < command_store(line).len() ==> #[trigger] command_store(line)[i].len() > 0,
        forall|i: int, j: int|
            0 <= i < command_store(line).len() && 0 <= j < command_store(line)[i].len()
                ==> #[trigger] command_store(line)[i][j].len() > 0,
{
    let m = segments(line).map_values(|seg: Seq<char>| words(seg));
    lemma_drop_empty_nonempty(m);
    assert forall|i: int, j: int|
        0 <= i < command_store(line).len() && 0 <= j < command_store(line)[i].len()
            implies #[trigger] command_store(line)[i][j].len() > 0 by {
        lemma_drop_empty_in(m, i);
        let k = choose|k: int| 0 <= k < m.len() && m[k] == drop_empty(m)[i];
        lemma_drop_empty_nonempty(pieces(segments(line)[k]));
    }
}

proof fn lemma_drop_empty_in<A>(s: Seq<Seq<A>>, i: int)
    requires
        0 <= i < drop_empty(s).len(),
    ensures
        exists|k: int| 0 <= k < s.len() && s[k] == drop_empty(s)[i],
    decreases s.len(),
{
    if s.len() > 0 {
        let d = drop_empty(s.drop_last());
        if s.last().len() == 0 || i < d.len() {
            lemma_drop_empty_in(s.drop_last(), i);
            let k = choose|k: int| 0 <= k < s.drop_last().len() && s.drop_last()[k] == d[i];
            assert(s[k] == drop_empty(s)[i]);
        } else {
            assert(s[s.len() - 1] == drop_empty(s)[i]);
        }
    }
}

/// Whether `c` is a whitespace character.
pub fn is_whitespace(c: char) -> (r: bool)
    ensures
        r == is_ws(c),
{
    let u = c as u32;
    (0x9 <= u && u <= 0xd) || u == 0x20 || u == 0x85 || u == 0xa0 || u == 0x1680 || (0x2000 <= u
        && u <= 0x200a) || u == 0x2028 || u == 0x2029 || u == 0x202f || u == 0x205f || u == 0x3000
}


/// One step of `segments`: the segments of a prefix one character longer.
proof fn lemma_segments_step(s: Seq<char>, i: int)
    requires
        0 <= i < s.len(),
    ensures
        segments(s.subrange(0, i + 1)) == (if is_separator(s[i]) {
            segments(s.subrange(0, i)).push(Seq::empty())
        } else {
            segments(s.subrange(0, i)).drop_last().push(
                segments(s.subrange(0, i)).last().push(s[i]),
            )
        }),
{
    assert(s.subrange(0, i + 1).drop_last() =~= s.subrange(0, i));
}

/// One step of `pieces`: the pieces of a range one character longer.
proof fn lemma_pieces_step(s: Seq<char>, a: int, i: int)
    requires
        0 <= a <= i < s.len(),
    ensures
        pieces(s.subrange(a, i + 1)) == (if is_ws(s[i]) {
            pieces(s.subrange(a, i)).push(Seq::empty())
        } else {
            pieces(s.subrange(a, i)).drop_last().push(pieces(s.subrange(a, i)).last().push(s[i]))
        }),
{
    assert(s.subrange(a, i + 1).drop_last() =~= s.subrange(a, i));
}

/// The words of a segment whose pieces are known: those of all but the last
/// piece, then the last piece if it is not empty.
proof fn lemma_words_last(seg: Seq<char>)
    ensures
        words(seg) == (if pieces(seg).last().len() == 0 {
            drop_empty(pieces(seg).drop_last())
        } else {
            drop_empty(pieces(seg).drop_last()).push(pieces(seg).last())
        }),
{
    lemma_pieces_len(seg);
}

/// Splits `input` into commands at each `;`, trims each command and splits
/// it into words at runs of whitespace. Segments that hold no word give no
/// command, so no command and no word is ever empty.
pub fn parse_to_command_store(input: &str) -> (r: Vec<Vec<String>>)
    ensures
        r.deep_view() == command_store(input@),
        forall|i: int| 0 <= i < r.len() ==> #[trigger] r[i].len() > 0,
        forall|i: int, j: int|
            0 <= i < r.len() && 0 <= j < r[i].len() ==> #[trigger] r[i][j]@.len() > 0,
{
    let n = input.unicode_len();
    let ghost s = input@;
    let ghost to_words = |seg: Seq<char>| words(seg);
    let mut store: Vec<Vec<String>> = Vec::new();
    let mut cmd: Vec<String> = Vec::new();
    let mut seg_start: usize = 0;
    let mut start: usize = 0;
    let mut i: usize = 0;
    assert(s.subrange(0, 0) =~= Seq::<char>::empty());
    assert(store.deep_view() =~= drop_empty(
        segments(s.subrange(0, 0)).drop_last().map_values(to_words),
    ));
    assert(cmd.deep_view() =~= drop_empty(pieces(s.subrange(0, 0)).drop_last()));
    while i < n
        invariant
            n == s.len(),
            s == input@,
            to_words == (|seg: Seq<char>| words(seg)),
            seg_start <= start <= i <= n,
            segments(s.subrange(0, i as int)).last() == s.subrange(seg_start as int, i as int),
            pieces(s.subrange(seg_start as int, i as int)).last() == s.subrange(
                start as int,
                i as int,
            ),
            store.deep_view() == drop_empty(
                segments(s.subrange(0, i as int)).drop_last().map_values(to_words),
            ),
            cmd.deep_view() == drop_empty(pieces(s.subrange(seg_start as int, i as int)).drop_last()),
        decreases n - i,
    {
        let c = input.get_char(i);
        proof {
            lemma_segments_step(s, i as int);
            lemma_segments_len(s.subrange(0, i as int));
            lemma_pieces_step(s, seg_start as int, i as int);
            lemma_pieces_len(s.subrange(seg_start as int, i as int));
        }
        let ghost sp = segments(s.subrange(0, i as int));
        let ghost wp = pieces(s.subrange(seg_start as int, i as int));
        let ghost old_store = store.deep_view();
        let ghost old_cmd = cmd.deep_view();
        if c == ';' || is_whitespace(c) {
            if start < i {
                let w = String::from_str(input.substring_char(start, i));
                cmd.push(w);
                assert(cmd.deep_view() =~= old_cmd.push(w@));
            }
            proof {
                lemma_words_last(s.subrange(seg_start as int, i as int));
            }
            assert(cmd.deep_view() == words(s.subrange(seg_start as int, i as int)));
            if c == ';' {
                let ghost full = cmd.deep_view();
                if cmd.len() > 0 {
                    store.push(cmd);
                    assert(store.deep_view() =~= old_store.push(full));
                }
                cmd = Vec::new();
                let ghost m = sp.map_values(to_words);
                assert(m.drop_last() =~= sp.drop_last().map_values(to_words));
                assert(m.last() == full);
                assert(store.deep_view() == drop_empty(m));
                assert(segments(s.subrange(0, i + 1)).drop_last() =~= sp);
                seg_start = i + 1;
                assert(s.subrange(seg_start as int, i + 1) =~= Seq::<char>::empty());
                assert(cmd.deep_view() =~= drop_empty(
                    pieces(s.subrange(seg_start as int, i + 1)).drop_last(),
                ));
            } else {
                assert(pieces(s.subrange(seg_start as int, i + 1)).drop_last() =~= wp);
                assert(segments(s.subrange(0, i + 1)).drop_last() =~= sp.drop_last());
                assert(s.subrange(seg_start as int, i + 1) =~= s.subrange(
                    seg_start as int,
                    i as int,
                ).push(c));
            }
            start = i + 1;
            assert(s.subrange(start as int, i + 1) =~= Seq::<char>::empty());
        } else {
            assert(segments(s.subrange(0, i + 1)).drop_last() =~= sp.drop_last());
            assert(pieces(s.subrange(seg_start as int, i + 1)).drop_last() =~= wp.drop_last());
            assert(s.subrange(seg_start as int, i + 1) =~= s.subrange(seg_start as int, i as int).push(
                c,
            ));
            assert(s.subrange(start as int, i + 1) =~= s.subrange(start as int, i as int).push(c));
        }
        i = i + 1;
    }
    let ghost sp = segments(s);
    let ghost old_store = store.deep_view();
    let ghost old_cmd = cmd.deep_view();
    assert(s.subrange(0, n as int) =~= s);
    proof {
        lemma_segments_len(s);
        lemma_pieces_len(s.subrange(seg_start as int, n as int));
        lemma_words_last(s.subrange(seg_start as int, n as int));
    }
    if start < n {
        let w = String::from_str(input.substring_char(start, n));
        cmd.push(w);
        assert(cmd.deep_view() =~= old_cmd.push(w@));
    }
    let ghost full = cmd.deep_view();
    assert(full == words(sp.last()));
    if cmd.len() > 0 {
        store.push(cmd);
        assert(store.deep_view() =~= old_store.push(full));
    }
    let ghost m = sp.map_values(to_words);
    assert(m.drop_last() =~= sp.drop_last().map_values(to_words));
    assert(m.last() == full);
    assert(store.deep_view() == command_store(s));
    proof {
        lemma_command_store_nonempty(s);
    }
    assert forall|i: int| 0 <= i < store.len() implies #[trigger] store[i].len() > 0 by {
        assert(store.deep_view()[i] == store[i].deep_view());
        assert(command_store(s)[i].len() > 0);
    }
    assert forall|i: int, j: int|
        0 <= i < store.len() && 0 <= j < store[i].len() implies #[trigger] store[i][j]@.len()
        > 0 by {
        assert(store.deep_view()[i] == store[i].deep_view());
        assert(store[i].deep_view()[j] == store[i][j]@);
        assert(command_store(s)[i][j].len() > 0);
    }
    store
}

} // verus!
