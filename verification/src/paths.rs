//! Partition-path construction and folder-name handling.

use vstd::prelude::*;

use crate::date::Date;
use crate::parse::{four_digit_chars, two_digit_chars};

verus! {

/// The partition path `logs/<folder>/<YYYY>/<MM>/<DD>` of a folder name and
/// a date, as a character sequence.
pub open spec fn partition_path_chars(folder: Seq<char>, d: Date) -> Seq<char> {
    "logs/"@ + folder + "/"@ + four_digit_chars(d.year as int) + "/"@ + two_digit_chars(
        d.month as int,
    ) + "/"@ + two_digit_chars(d.day as int)
}

/// Resolves a (folder name, date) pair to its partition path
/// `logs/<folder>/<YYYY>/<MM>/<DD>`, with zero-padded date components.
/// Pure string construction; no filesystem access.
pub fn get_full_path(folder_name: &str, date: &Date) -> (r: String)
    requires
        date.wf(),
    ensures
        r@ == partition_path_chars(folder_name@, *date),
{
    let mut out = String::new();
    out.append("logs/");
    out.append(folder_name);
    out.append("/");
    crate::parse::push_four_digits(&mut out, date.year);
    out.append("/");
    crate::parse::push_two_digits(&mut out, date.month);
    out.append("/");
    crate::parse::push_two_digits(&mut out, date.day);
    proof {
        assert(out@ =~= partition_path_chars(folder_name@, *date));
    }
    out
}

/// The output directory for an exported partition: the partition path placed
/// under `logs/exported/`.
pub fn export_output_folder(partition_path: &str) -> (r: String)
    ensures
        r@ == "logs/exported/"@ + partition_path@,
{
    let mut out = String::new();
    out.append("logs/exported/");
    out.append(partition_path);
    out
}

/// The output file for an exported partition: `raw_log.txt` inside the
/// partition's output directory.
pub fn export_output_file(partition_path: &str) -> (r: String)
    ensures
        r@ == "logs/exported/"@ + partition_path@ + "/raw_log.txt"@,
{
    let mut out = String::new();
    out.append("logs/exported/");
    out.append(partition_path);
    out.append("/raw_log.txt");
    proof {
        assert(out@ =~= "logs/exported/"@ + partition_path@ + "/raw_log.txt"@);
    }
    out
}

/// The whitespace that is trimmed from folder-name tokens.
pub open spec fn is_space_char(c: char) -> bool {
    c == ' ' || c == '\t' || c == '\n' || c == '\r'
}

/// `s` with its leading whitespace removed.
pub open spec fn trim_start_chars(s: Seq<char>) -> Seq<char>
    decreases s.len(),
{
    if s.len() > 0 && is_space_char(s[0]) {
        trim_start_chars(s.skip(1))
    } else {
        s
    }
}

/// `s` with its trailing whitespace removed.
pub open spec fn trim_end_chars(s: Seq<char>) -> Seq<char>
    decreases s.len(),
{
    if s.len() > 0 && is_space_char(s[s.len() - 1]) {
        trim_end_chars(s.take(s.len() - 1))
    } else {
        s
    }
}

/// `s` with both leading and trailing whitespace removed.
pub open spec fn trim_chars(s: Seq<char>) -> Seq<char> {
    trim_end_chars(trim_start_chars(s))
}

/// The comma-separated tokens of `s`, reading left to right with `cur` as
/// the token collected so far. Splitting keeps empty tokens, so `n` commas
/// always yield `n + 1` tokens.
pub open spec fn split_commas(s: Seq<char>, cur: Seq<char>) -> Seq<Seq<char>>
    decreases s.len(),
{
    if s.len() == 0 {
        seq![cur]
    } else if s[0] == ',' {
        seq![cur] + split_commas(s.skip(1), Seq::empty())
    } else {
        split_commas(s.skip(1), cur.push(s[0]))
    }
}

/// Each token trimmed of surrounding whitespace.
pub open spec fn trim_all(tokens: Seq<Seq<char>>) -> Seq<Seq<char>> {
    tokens.map_values(|t: Seq<char>| trim_chars(t))
}

/// The folder names of a comma-separated argument: split on commas, each
/// token trimmed of surrounding whitespace.
pub open spec fn folder_name_tokens(s: Seq<char>) -> Seq<Seq<char>> {
    trim_all(split_commas(s, Seq::empty()))
}

fn is_space(c: char) -> (r: bool)
    ensures
        r == is_space_char(c),
{
    c == ' ' || c == '\t' || c == '\n' || c == '\r'
}

/// Removes leading and trailing whitespace from a string.
pub fn trim_string(t: &str) -> (r: String)
    ensures
        r@ == trim_chars(t@),
{
    let len = t.unicode_len();
    let mut i: usize = 0;
    proof {
        assert(t@.skip(0) =~= t@);
    }
    while i < len && is_space(t.get_char(i))
        invariant
            i <= len,
            len == t@.len(),
            trim_start_chars(t@) == trim_start_chars(t@.skip(i as int)),
        decreases len - i,
    {
        proof {
            assert(t@.skip(i as int).skip(1) =~= t@.skip(i as int + 1));
        }
        i = i + 1;
    }
    proof {
        assert(trim_start_chars(t@) == t@.skip(i as int));
    }
    let ghost u: Seq<char> = t@.skip(i as int);
    let mut j: usize = len;
    proof {
        assert(u.take(len - i as int) =~= u);
    }
    while j > i && is_space(t.get_char(j - 1))
        invariant
            i <= j <= len,
            len == t@.len(),
            u == t@.skip(i as int),
            trim_end_chars(u) == trim_end_chars(u.take(j - i as int)),
        decreases j,
    {
        proof {
            let k = j - i as int;
            assert(u.take(k)[k - 1] == t@[j - 1]);
            assert(u.take(k).take(k - 1) =~= u.take(k - 1));
        }
        j = j - 1;
    }
    proof {
        assert(trim_end_chars(u.take(j - i as int)) == u.take(j - i as int));
        assert(u.take(j - i as int) =~= t@.subrange(i as int, j as int));
    }
    let sub = t.substring_char(i, j);
    String::from_str(sub)
}

/// Splits a comma-separated folder-names argument into its tokens, trimming
/// whitespace around each. Duplicates are kept: they cause redundant work
/// downstream, not an error.
pub fn split_folder_names(s: &str) -> (r: Vec<String>)
    ensures
        r.deep_view() == folder_name_tokens(s@),
{
    let len = s.unicode_len();
    let mut r: Vec<String> = Vec::new();
    let ghost mut raw: Seq<Seq<char>> = Seq::empty();
    let mut start: usize = 0;
    let mut i: usize = 0;
    proof {
        assert(s@.skip(0) =~= s@);
        assert(s@.subrange(0, 0) =~= Seq::<char>::empty());
        assert(raw + split_commas(s@, Seq::empty()) =~= split_commas(s@, Seq::empty()));
        assert(trim_all(raw) =~= Seq::<Seq<char>>::empty());
        assert(r.deep_view() =~= Seq::<Seq<char>>::empty());
    }
    while i < len
        invariant
            start <= i <= len,
            len == s@.len(),
            split_commas(s@, Seq::empty()) == raw + split_commas(
                s@.skip(i as int),
                s@.subrange(start as int, i as int),
            ),
            r.deep_view() == trim_all(raw),
        decreases len - i,
    {
        let c = s.get_char(i);
        if c == ',' {
            let token = s.substring_char(start, i);
            let trimmed = trim_string(token);
            let ghost prev = r.deep_view();
            r.push(trimmed);
            proof {
                let cur = s@.subrange(start as int, i as int);
                assert(s@.skip(i as int)[0] == s@[i as int]);
                assert(s@.skip(i as int).skip(1) =~= s@.skip(i as int + 1));
                assert(raw + (seq![cur] + split_commas(s@.skip(i as int + 1), Seq::empty()))
                    =~= raw.push(cur) + split_commas(s@.skip(i as int + 1), Seq::empty()));
                assert(r.deep_view() =~= prev.push(trimmed@));
                assert(trim_all(raw.push(cur)) =~= trim_all(raw).push(trim_chars(cur)));
                raw = raw.push(cur);
                assert(s@.subrange(i as int + 1, i as int + 1) =~= Seq::<char>::empty());
            }
            start = i + 1;
        } else {
            proof {
                assert(s@.skip(i as int)[0] == s@[i as int]);
                assert(s@.skip(i as int).skip(1) =~= s@.skip(i as int + 1));
                assert(s@.subrange(start as int, i as int).push(s@[i as int]) =~= s@.subrange(
                    start as int,
                    i as int + 1,
                ));
            }
        }
        i = i + 1;
    }
    let token = s.substring_char(start, len);
    let trimmed = trim_string(token);
    let ghost prev = r.deep_view();
    r.push(trimmed);
    proof {
        let cur = s@.subrange(start as int, len as int);
        assert(s@.skip(len as int).len() == 0);
        assert(r.deep_view() =~= prev.push(trimmed@));
        assert(trim_all(raw.push(cur)) =~= trim_all(raw).push(trim_chars(cur)));
        assert(split_commas(s@, Seq::empty()) =~= raw.push(cur));
    }
    r
}


/// Distinct (folder name, date) pairs resolve to distinct partition paths,
/// so exports of different folders, or of different dates within one folder,
/// never target the same output location.
pub proof fn lemma_partition_path_injective(f1: Seq<char>, d1: Date, f2: Seq<char>, d2: Date)
    requires
        d1.wf(),
        d2.wf(),
        partition_path_chars(f1, d1) == partition_path_chars(f2, d2),
    ensures
        f1 == f2,
        d1 == d2,
{
    reveal_strlit("logs/");
    reveal_strlit("/");
    let p1 = partition_path_chars(f1, d1);
    let p2 = partition_path_chars(f2, d2);
    assert(p1.len() == 16 + f1.len());
    assert(p2.len() == 16 + f2.len());
    let n = f1.len() as int;
    assert(f1 =~= f2) by {
        assert forall|i: int| 0 <= i < n implies f1[i] == f2[i] by {
            assert(p1[5 + i] == f1[i]);
            assert(p2[5 + i] == f2[i]);
        }
    }
    assert(four_digit_chars(d1.year as int) =~= four_digit_chars(d2.year as int)) by {
        assert forall|i: int| 0 <= i < 4 implies four_digit_chars(d1.year as int)[i]
            == four_digit_chars(d2.year as int)[i] by {
            assert(p1[6 + n + i] == four_digit_chars(d1.year as int)[i]);
            assert(p2[6 + n + i] == four_digit_chars(d2.year as int)[i]);
        }
    }
    assert(two_digit_chars(d1.month as int) =~= two_digit_chars(d2.month as int)) by {
        assert forall|i: int| 0 <= i < 2 implies two_digit_chars(d1.month as int)[i]
            == two_digit_chars(d2.month as int)[i] by {
            assert(p1[11 + n + i] == two_digit_chars(d1.month as int)[i]);
            assert(p2[11 + n + i] == two_digit_chars(d2.month as int)[i]);
        }
    }
    assert(two_digit_chars(d1.day as int) =~= two_digit_chars(d2.day as int)) by {
        assert forall|i: int| 0 <= i < 2 implies two_digit_chars(d1.day as int)[i]
            == two_digit_chars(d2.day as int)[i] by {
            assert(p1[14 + n + i] == two_digit_chars(d1.day as int)[i]);
            assert(p2[14 + n + i] == two_digit_chars(d2.day as int)[i]);
        }
    }
    crate::parse::lemma_four_digit_chars_injective(d1.year as int, d2.year as int);
    crate::parse::lemma_two_digit_chars_injective(d1.month as int, d2.month as int);
    crate::parse::lemma_two_digit_chars_injective(d1.day as int, d2.day as int);
}

} // verus!
