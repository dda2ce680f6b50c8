use vstd::prelude::*;
use vstd::string::*;

verus! {

/// The character sequences of a list of strings.
pub open spec fn texts(v: Seq<String>) -> Seq<Seq<char>> {
    v.map_values(|s: String| s@)
}

/// The pieces of `s` between occurrences of `sep`; a string without `sep` is one piece.
pub open spec fn split_on(s: Seq<char>, sep: char) -> Seq<Seq<char>>
    decreases s.len(),
{
    if s.len() == 0 {
        seq![Seq::empty()]
    } else {
        let prev = split_on(s.drop_last(), sep);
        if s.last() == sep {
            prev.push(Seq::empty())
        } else {
            prev.update(prev.len() - 1, prev.last().push(s.last()))
        }
    }
}

pub proof fn lemma_split_on_nonempty(s: Seq<char>, sep: char)
    ensures
        split_on(s, sep).len() >= 1,
    decreases s.len(),
{
    if s.len() > 0 {
        lemma_split_on_nonempty(s.drop_last(), sep);
    }
}

pub proof fn lemma_split_step(s: Seq<char>, sep: char, i: int)
    requires
        0 <= i < s.len(),
    ensures
        ({
            let f = split_on(s.take(i), sep);
            let g = split_on(s.take(i + 1), sep);
            &&& f.len() >= 1
            &&& s[i] == sep ==> g == f.push(Seq::empty())
            &&& s[i] != sep ==> g == f.update(f.len() - 1, f.last().push(s[i]))
        }),
{
    lemma_split_on_nonempty(s.take(i), sep);
    assert(s.take(i + 1).drop_last() =~= s.take(i));
}

/// The non-empty pieces of `pieces`, in order.
pub open spec fn drop_empty(pieces: Seq<Seq<char>>) -> Seq<Seq<char>>
    decreases pieces.len(),
{
    if pieces.len() == 0 {
        Seq::empty()
    } else {
        let rest = drop_empty(pieces.drop_last());
        if pieces.last().len() == 0 {
            rest
        } else {
            rest.push(pieces.last())
        }
    }
}

/// Whether `c` is an ASCII whitespace character: space, tab, line feed,
/// vertical tab, form feed or carriage return.
pub open spec fn is_blank(c: char) -> bool {
    c == ' ' || c == '\t' || c == '\n' || c == '\x0B' || c == '\x0C' || c == '\r'
}

/// `line` with every whitespace character turned into a space.
pub open spec fn blanks_to_spaces(line: Seq<char>) -> Seq<char> {
    line.map_values(|c: char| if is_blank(c) { ' ' } else { c })
}

/// The whitespace-separated tokens of a line: its maximal runs of
/// non-whitespace characters, in order.
pub open spec fn tokens_of(line: Seq<char>) -> Seq<Seq<char>> {
    drop_empty(split_on(blanks_to_spaces(line), ' '))
}

/// The pieces of `s` between occurrences of `sep`.
pub fn split_fields(s: &str, sep: char) -> (r: Vec<String>)
    ensures
        texts(r@) == split_on(s@, sep),
{
    let n = s.unicode_len();
    let mut r: Vec<String> = Vec::new();
    let mut start: usize = 0;
    let mut i: usize = 0;
    proof {
        assert(s@.take(0) =~= Seq::<char>::empty());
        assert(split_on(s@.take(0), sep) =~= texts(r@).push(s@.subrange(0, 0)));
    }
    while i < n
        invariant
            n == s@.len(),
            0 <= start <= i <= n,
            split_on(s@.take(i as int), sep) == texts(r@).push(s@.subrange(start as int, i as int)),
        decreases n - i,
    {
        let c = s.get_char(i);
        proof {
            lemma_split_step(s@, sep, i as int);
        }
        if c == sep {
            let sub = s.substring_char(start, i);
            let piece = sub.to_owned();
            let ghost before = r@;
            let ghost f = split_on(s@.take(i as int), sep);
            r.push(piece);
            proof {
                assert(piece@ == s@.subrange(start as int, i as int));
                assert(split_on(s@.take(i + 1), sep) == f.push(Seq::empty()));
            }
            start = i + 1;
            proof {
                assert(s@.subrange(start as int, i + 1) =~= Seq::<char>::empty());
                assert(texts(r@) =~= texts(before).push(piece@));
                assert(split_on(s@.take(i + 1), sep) =~= texts(r@).push(
                    s@.subrange(start as int, i + 1),
                ));
            }
        } else {
            proof {
                assert(s@.subrange(start as int, i as int).push(c) =~= s@.subrange(
                    start as int,
                    i + 1,
                ));
                assert(split_on(s@.take(i + 1), sep) =~= texts(r@).push(
                    s@.subrange(start as int, i + 1),
                ));
            }
        }
        i = i + 1;
    }
    let last = s.substring_char(start, n).to_owned();
    let ghost before = r@;
    r.push(last);
    proof {
        assert(s@.take(n as int) =~= s@);
        assert(texts(r@) =~= texts(before).push(last@));
    }
    r
}

/// `line` with every whitespace character turned into a space.
pub fn spaces_for_blanks(line: &str) -> (r: String)
    ensures
        r@ == blanks_to_spaces(line@),
{
    let n = line.unicode_len();
    let mut out = String::new();
    let mut i: usize = 0;
    proof {
        reveal_strlit(" ");
    }
    while i < n
        invariant
            n == line@.len(),
            0 <= i <= n,
            out@ == blanks_to_spaces(line@.take(i as int)),
            " "@ == seq![' '],
        decreases n - i,
    {
        let c = line.get_char(i);
        if c == ' ' || c == '\t' || c == '\n' || c == '\x0B' || c == '\x0C' || c == '\r' {
            out.append(" ");
        } else {
            out.append(line.substring_char(i, i + 1));
        }
        proof {
            assert(out@ =~= blanks_to_spaces(line@.take(i + 1)));
        }
        i = i + 1;
    }
    proof {
        assert(line@.take(n as int) =~= line@);
    }
    out
}

/// The whitespace-separated tokens of `line`.
pub fn split_tokens(line: &str) -> (r: Vec<String>)
    ensures
        texts(r@) == tokens_of(line@),
{
    let spaced = spaces_for_blanks(line);
    let pieces = split_fields(spaced.as_str(), ' ');
    let mut r: Vec<String> = Vec::new();
    let mut i: usize = 0;
    while i < pieces.len()
        invariant
            0 <= i <= pieces@.len(),
            texts(r@) == drop_empty(texts(pieces@).take(i as int)),
            texts(pieces@) == split_on(blanks_to_spaces(line@), ' '),
        decreases pieces@.len() - i,
    {
        let ghost before = r@;
        proof {
            assert(texts(pieces@).take(i + 1).drop_last() =~= texts(pieces@).take(i as int));
            assert(texts(pieces@)[i as int] == pieces@[i as int]@);
        }
        if pieces[i].as_str().unicode_len() > 0 {
            r.push(pieces[i].clone());
            proof {
                assert(texts(r@) =~= texts(before).push(pieces@[i as int]@));
            }
        }
        i = i + 1;
    }
    proof {
        assert(texts(pieces@).take(pieces@.len() as int) =~= texts(pieces@));
    }
    r
}

} // verus!
