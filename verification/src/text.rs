//! Character-level scanning: space stripping, first-occurrence search, and
//! splitting text into lines the way the map format expects.

use vstd::prelude::*;

verus! {

/// The text with every space character removed. The map format strips all
/// spaces before any line is examined, so spaces are insignificant everywhere,
/// even inside numbers.
pub open spec fn strip_spaces(s: Seq<char>) -> Seq<char>
    decreases s.len(),
{
    if s.len() == 0 {
        s
    } else if s.first() == ' ' {
        strip_spaces(s.drop_first())
    } else {
        seq![s.first()] + strip_spaces(s.drop_first())
    }
}

/// Index of the first occurrence of `c` at or after `from`, if any.
pub open spec fn find_char_at(s: Seq<char>, from: int, c: char) -> Option<int>
    decreases s.len() - from,
{
    if from < 0 || from >= s.len() {
        None
    } else if s[from] == c {
        Some(from)
    } else {
        find_char_at(s, from + 1, c)
    }
}

/// Index of the first occurrence of `c` in `s`, if any.
pub open spec fn find_char(s: Seq<char>, c: char) -> Option<int> {
    find_char_at(s, 0, c)
}

/// What a found index means: it is in range, holds `c`, and nothing before it
/// (at or after `from`) does; `None` means no occurrence at or after `from`.
pub proof fn lemma_find_char_at(s: Seq<char>, from: int, c: char)
    requires
        0 <= from,
    ensures
        match find_char_at(s, from, c) {
            Some(i) => from <= i < s.len() && s[i] == c && (forall|j: int|
                from <= j < i ==> s[j] != c),
            None => forall|j: int| from <= j < s.len() ==> s[j] != c,
        },
    decreases s.len() - from,
{
    if from < s.len() && s[from] != c {
        lemma_find_char_at(s, from + 1, c);
    }
}

/// A search inside a subrange agrees with one on the whole text: the first
/// occurrence at or after `from` settles what the subrange `from..to` holds.
pub proof fn lemma_find_char_within(s: Seq<char>, from: int, to: int, c: char)
    requires
        0 <= from <= to <= s.len(),
    ensures
        ({
            let part = s.subrange(from, to);
            match find_char_at(s, from, c) {
                Some(i) => if i < to {
                    find_char_at(part, 0, c) == Some(i - from)
                } else {
                    find_char_at(part, 0, c) is None
                },
                None => find_char_at(part, 0, c) is None,
            }
        }),
{
    lemma_find_char_within_rec(s, from, to, from, c);
}

proof fn lemma_find_char_within_rec(s: Seq<char>, from: int, to: int, at: int, c: char)
    requires
        0 <= from <= at <= to <= s.len(),
    ensures
        ({
            let part = s.subrange(from, to);
            match find_char_at(s, at, c) {
                Some(i) => if i < to {
                    find_char_at(part, at - from, c) == Some(i - from)
                } else {
                    find_char_at(part, at - from, c) is None
                },
                None => find_char_at(part, at - from, c) is None,
            }
        }),
    decreases to - at,
{
    let part = s.subrange(from, to);
    if at < to {
        assert(part[at - from] == s[at]);
        if s[at] != c {
            lemma_find_char_within_rec(s, from, to, at + 1, c);
        }
    } else {
        lemma_find_char_at(s, at, c);
    }
}

/// A line with one trailing carriage return removed, as line splitting does
/// for `\r\n` endings.
pub open spec fn drop_final_cr(l: Seq<char>) -> Seq<char> {
    if l.len() > 0 && l.last() == '\r' {
        l.drop_last()
    } else {
        l
    }
}

/// The lines of the suffix of `s` that starts at `pos`: segments separated by
/// `\n`, each with one trailing `\r` removed, and no final empty line for a
/// trailing newline. An empty suffix has no lines.
pub open spec fn split_lines_at(s: Seq<char>, pos: int) -> Seq<Seq<char>>
    decreases s.len() - pos,
    via split_lines_at_decreases
{
    if pos < 0 || pos >= s.len() {
        Seq::empty()
    } else {
        match find_char_at(s, pos, '\n') {
            Some(i) => seq![drop_final_cr(s.subrange(pos, i))] + split_lines_at(s, i + 1),
            None => seq![s.subrange(pos, s.len() as int)],
        }
    }
}

#[via_fn]
proof fn split_lines_at_decreases(s: Seq<char>, pos: int) {
    if 0 <= pos < s.len() {
        lemma_find_char_at(s, pos, '\n');
    }
}

/// The lines of `s`.
pub open spec fn split_lines(s: Seq<char>) -> Seq<Seq<char>> {
    split_lines_at(s, 0)
}

/// The characters of `s`, one by one.
pub fn str_to_chars(s: &str) -> (r: Vec<char>)
    ensures
        r@ == s@,
{
    let n = s.unicode_len();
    let mut r: Vec<char> = Vec::new();
    let mut i: usize = 0;
    while i < n
        invariant
            i <= n,
            n == s@.len(),
            r@ == s@.subrange(0, i as int),
        decreases n - i,
    {
        r.push(s.get_char(i));
        assert(r@ =~= s@.subrange(0, i + 1 as int));
        i = i + 1;
    }
    assert(r@ =~= s@);
    r
}

/// A copy of the characters of `s` at positions `from..to`.
pub fn copy_range(s: &Vec<char>, from: usize, to: usize) -> (r: Vec<char>)
    requires
        from <= to <= s@.len(),
    ensures
        r@ == s@.subrange(from as int, to as int),
{
    let mut r: Vec<char> = Vec::new();
    let mut i: usize = from;
    while i < to
        invariant
            from <= i <= to <= s@.len(),
            r@ == s@.subrange(from as int, i as int),
        decreases to - i,
    {
        r.push(s[i]);
        assert(r@ =~= s@.subrange(from as int, i + 1 as int));
        i = i + 1;
    }
    r
}

/// The text with every space character removed.
pub fn strip_spaces_exec(s: &Vec<char>) -> (r: Vec<char>)
    ensures
        r@ == strip_spaces(s@),
{
    let mut r: Vec<char> = Vec::new();
    let mut i: usize = 0;
    assert(s@.subrange(0, s@.len() as int) =~= s@);
    assert(Seq::<char>::empty() + strip_spaces(s@) =~= strip_spaces(s@));
    while i < s.len()
        invariant
            i <= s@.len(),
            r@ + strip_spaces(s@.subrange(i as int, s@.len() as int)) == strip_spaces(s@),
        decreases s@.len() - i,
    {
        let ghost rest = s@.subrange(i as int, s@.len() as int);
        assert(rest.drop_first() =~= s@.subrange(i + 1 as int, s@.len() as int));
        if s[i] != ' ' {
            r.push(s[i]);
            proof {
                assert(seq![rest.first()] + strip_spaces(rest.drop_first()) == strip_spaces(
                    rest,
                ));
            }
        }
        assert(r@ + strip_spaces(s@.subrange(i + 1 as int, s@.len() as int)) =~= strip_spaces(
            s@,
        ));
        i = i + 1;
    }
    assert(strip_spaces(s@.subrange(s@.len() as int, s@.len() as int)) =~= Seq::<
        char,
    >::empty());
    assert(r@ =~= strip_spaces(s@));
    r
}

/// Index of the first occurrence of `c` at or after `from`, if any.
pub fn find_char_exec(s: &Vec<char>, from: usize, c: char) -> (r: Option<usize>)
    ensures
        match r {
            Some(i) => from <= i < s@.len() && find_char_at(s@, from as int, c) == Some(i as int),
            None => find_char_at(s@, from as int, c) is None,
        },
{
    let mut i: usize = from;
    while i < s.len()
        invariant
            from <= i,
            find_char_at(s@, from as int, c) == find_char_at(s@, i as int, c),
        decreases s@.len() - i,
    {
        if s[i] == c {
            return Some(i);
        }
        i = i + 1;
    }
    None
}

/// The lines of `s`, each as its own vector.
pub fn split_lines_exec(s: &Vec<char>) -> (r: Vec<Vec<char>>)
    ensures
        r@.map_values(|l: Vec<char>| l@) == split_lines(s@),
{
    let mut r: Vec<Vec<char>> = Vec::new();
    let mut pos: usize = 0;
    let mut done = false;
    while !done
        invariant
            pos <= s@.len(),
            !done ==> r@.map_values(|l: Vec<char>| l@) + split_lines_at(s@, pos as int)
                == split_lines(s@),
            done ==> r@.map_values(|l: Vec<char>| l@) == split_lines(s@),
        decreases (if done { 0int } else { s@.len() - pos + 1 }),
    {
        if pos >= s.len() {
            assert(split_lines_at(s@, pos as int) =~= Seq::<Seq<char>>::empty());
            assert(r@.map_values(|l: Vec<char>| l@) =~= split_lines(s@));
            done = true;
        } else {
            proof {
                lemma_find_char_at(s@, pos as int, '\n');
            }
            let line_end = find_char_exec(s, pos, '\n');
            let to = match line_end {
                Some(i) => i,
                None => s.len(),
            };
            let mut line = copy_range(s, pos, to);
            if line.len() > 0 && line[line.len() - 1] == '\r' && line_end.is_some() {
                line.pop();
                assert(line@ =~= drop_final_cr(s@.subrange(pos as int, to as int)));
            }
            let ghost prev = r@.map_values(|l: Vec<char>| l@);
            r.push(line);
            match line_end {
                Some(i) => {
                    assert(r@.map_values(|l: Vec<char>| l@) =~= prev + seq![line@]);
                    assert(prev + split_lines_at(s@, pos as int) == split_lines(s@));
                    assert(split_lines_at(s@, pos as int) == seq![line@] + split_lines_at(
                        s@,
                        i + 1 as int,
                    ));
                    assert(r@.map_values(|l: Vec<char>| l@) + split_lines_at(s@, i + 1 as int)
                        =~= split_lines(s@));
                    pos = i + 1;
                },
                None => {
                    assert(line@ =~= s@.subrange(pos as int, s@.len() as int));
                    assert(split_lines_at(s@, pos as int) == seq![line@]);
                    assert(r@.map_values(|l: Vec<char>| l@) =~= prev + seq![line@]);
                    assert(r@.map_values(|l: Vec<char>| l@) =~= split_lines(s@));
                    done = true;
                },
            }
        }
    }
    r
}

} // verus!
