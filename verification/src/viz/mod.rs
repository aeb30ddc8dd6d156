//! The keyboard drawn as text: one block per key, darker where the key was
//! pressed more often.

use vstd::prelude::*;

use crate::seq_find::{first_index, lemma_first_index_is, lemma_first_index_none};
use crate::storage::aggregate::{has_label, tallies, Tally};

verus! {

/// The keys of the QWERTY layout by their names, row by row.
pub open spec fn layout_spec() -> Seq<Seq<Seq<char>>> {
    seq![
        seq!["`"@, "1"@, "2"@, "3"@, "4"@, "5"@, "6"@, "7"@, "8"@, "9"@, "0"@, "-"@, "="@],
        seq!["q"@, "w"@, "e"@, "r"@, "t"@, "y"@, "u"@, "i"@, "o"@, "p"@, "["@, "]"@, "\\"@],
        seq!["a"@, "s"@, "d"@, "f"@, "g"@, "h"@, "j"@, "k"@, "l"@, ";"@, "'"@],
        seq!["z"@, "x"@, "c"@, "v"@, "b"@, "n"@, "m"@, ","@, "."@, "/"@],
        seq!["space"@],
    ]
}

/// The names of the keys of a row.
pub open spec fn row_names(row: Seq<&'static str>) -> Seq<Seq<char>> {
    Seq::new(row.len(), |i: int| row[i]@)
}

/// The names of the keys of a layout.
pub open spec fn layout_names(rows: Seq<Vec<&'static str>>) -> Seq<Seq<Seq<char>>> {
    Seq::new(rows.len(), |i: int| row_names(rows[i]@))
}

/// The QWERTY layout, row by row.
pub fn keyboard_layout() -> (rows: Vec<Vec<&'static str>>)
    ensures
        layout_names(rows@) == layout_spec(),
{
    let row0: Vec<&'static str> = vec!["`", "1", "2", "3", "4", "5", "6", "7", "8", "9", "0", "-", "="];
    let row1: Vec<&'static str> = vec!["q", "w", "e", "r", "t", "y", "u", "i", "o", "p", "[", "]", "\\"];
    let row2: Vec<&'static str> = vec!["a", "s", "d", "f", "g", "h", "j", "k", "l", ";", "'"];
    let row3: Vec<&'static str> = vec!["z", "x", "c", "v", "b", "n", "m", ",", ".", "/"];
    let row4: Vec<&'static str> = vec!["space"];
    assert(row_names(row0@) =~= layout_spec()[0]);
    assert(row_names(row1@) =~= layout_spec()[1]);
    assert(row_names(row2@) =~= layout_spec()[2]);
    assert(row_names(row3@) =~= layout_spec()[3]);
    assert(row_names(row4@) =~= layout_spec()[4]);
    let mut rows: Vec<Vec<&'static str>> = Vec::new();
    rows.push(row0);
    rows.push(row1);
    rows.push(row2);
    rows.push(row3);
    rows.push(row4);
    assert(layout_names(rows@) =~= layout_spec());
    rows
}

/// The count listed for a key; zero where the key is not listed. Of two
/// entries for one key the first counts.
pub open spec fn count_of(counts: Seq<Tally>, key: Seq<char>) -> nat {
    match first_index(counts, has_label(key)) {
        Some(i) => counts[i].1,
        None => 0,
    }
}

/// The largest count of the list; one where the list is empty.
pub open spec fn max_count(counts: Seq<Tally>) -> nat
    decreases counts.len(),
{
    if counts.len() == 0 {
        1
    } else if counts.len() == 1 {
        counts[0].1
    } else if max_count(counts.drop_last()) >= counts.last().1 {
        max_count(counts.drop_last())
    } else {
        counts.last().1
    }
}

/// The shade of a key: three times the count over the largest count,
/// rounded down, and never above three. Where the largest count is zero
/// every key has shade zero.
pub open spec fn shade(count: nat, max: nat) -> nat {
    if max == 0 {
        0
    } else if count * 3 / max > 3 {
        3
    } else {
        count * 3 / max
    }
}

/// The block drawn for a shade.
pub open spec fn block(shade: nat) -> char {
    if shade == 0 {
        '░'
    } else if shade == 1 {
        '▒'
    } else if shade == 2 {
        '▓'
    } else {
        '█'
    }
}

/// A row of keys as text: for each key its block and a blank.
pub open spec fn render_keys(counts: Seq<Tally>, keys: Seq<Seq<char>>) -> Seq<char>
    decreases keys.len(),
{
    if keys.len() == 0 {
        Seq::empty()
    } else {
        render_keys(counts, keys.drop_last()).push(
            block(shade(count_of(counts, keys.last()), max_count(counts))),
        ).push(' ')
    }
}

/// Rows of keys as text: each row ends with a line feed.
pub open spec fn render_rows(counts: Seq<Tally>, rows: Seq<Seq<Seq<char>>>) -> Seq<char>
    decreases rows.len(),
{
    if rows.len() == 0 {
        Seq::empty()
    } else {
        (render_rows(counts, rows.drop_last()) + render_keys(counts, rows.last())).push('\n')
    }
}

/// The heatmap of the QWERTY layout.
pub open spec fn render_spec(counts: Seq<Tally>) -> Seq<char> {
    render_rows(counts, layout_spec())
}

fn largest(counts: &Vec<(String, u64)>) -> (max: u64)
    ensures
        max == max_count(tallies(counts@)),
{
    if counts.len() == 0 {
        return 1;
    }
    let ghost all = tallies(counts@);
    let mut max: u64 = counts[0].1;
    let mut i: usize = 1;
    assert(all.take(1) =~= seq![all[0]]);
    while i < counts.len()
        invariant
            1 <= i <= counts.len(),
            all == tallies(counts@),
            max == max_count(all.take(i as int)),
        decreases counts.len() - i,
    {
        proof {
            assert(all.take(i + 1).drop_last() == all.take(i as int));
            assert(all.take(i + 1).last() == all[i as int]);
        }
        if counts[i].1 > max {
            max = counts[i].1;
        }
        i += 1;
    }
    assert(all.take(counts.len() as int) == all);
    max
}

fn lookup(counts: &Vec<(String, u64)>, key: &str) -> (count: u64)
    ensures
        count == count_of(tallies(counts@), key@),
{
    let name = String::from_str(key);
    let mut i: usize = 0;
    while i < counts.len()
        invariant
            i <= counts.len(),
            name@ == key@,
            forall|k: int| 0 <= k < i ==> !has_label(key@)(#[trigger] tallies(counts@)[k]),
        decreases counts.len() - i,
    {
        if counts[i].0 == name {
            proof {
                assert(has_label(key@)(tallies(counts@)[i as int]));
                lemma_first_index_is(tallies(counts@), has_label(key@), i as int);
            }
            return counts[i].1;
        }
        i += 1;
    }
    proof {
        lemma_first_index_none(tallies(counts@), has_label(key@));
    }
    0
}

fn shade_of(count: u64, max: u64) -> (level: u8)
    ensures
        level == shade(count as nat, max as nat),
{
    if max == 0 {
        0
    } else {
        let ratio: u128 = (count as u128) * 3 / (max as u128);
        if ratio > 3 {
            3
        } else {
            ratio as u8
        }
    }
}

fn block_of(level: u8) -> (c: char)
    ensures
        c == block(level as nat),
{
    if level == 0 {
        '░'
    } else if level == 1 {
        '▒'
    } else if level == 2 {
        '▓'
    } else {
        '█'
    }
}

/// Draws the QWERTY layout with one block per key. `counts` lists how often
/// each key was pressed, by the key's name.
pub fn render_ascii_heatmap(counts: &Vec<(String, u64)>) -> (text: String)
    ensures
        text@ == render_spec(tallies(counts@)),
{
    let max: u64 = largest(counts);
    let layout = keyboard_layout();
    let ghost listed = tallies(counts@);
    let ghost rows = layout_names(layout@);
    let mut output = String::new();
    let mut r: usize = 0;
    while r < layout.len()
        invariant
            r <= layout.len(),
            rows == layout_names(layout@),
            listed == tallies(counts@),
            max == max_count(listed),
            output@ == render_rows(listed, rows.take(r as int)),
        decreases layout.len() - r,
    {
        let ghost keys = rows[r as int];
        let ghost before = output@;
        let mut k: usize = 0;
        while k < layout[r].len()
            invariant
                r < layout.len(),
                k <= layout[r as int].len(),
                rows == layout_names(layout@),
                keys == rows[r as int],
                listed == tallies(counts@),
                max == max_count(listed),
                output@ == before + render_keys(listed, keys.take(k as int)),
            decreases layout[r as int].len() - k,
        {
            proof {
                assert(keys.take(k + 1).drop_last() == keys.take(k as int));
                assert(keys.take(k + 1).last() == layout@[r as int]@[k as int]@);
            }
            let count: u64 = lookup(counts, layout[r][k]);
            output.push(block_of(shade_of(count, max)));
            output.push(' ');
            k += 1;
            assert(output@ == before + render_keys(listed, keys.take(k as int)));
        }
        output.push('\n');
        proof {
            assert(keys.take(layout[r as int].len() as int) == keys);
            assert(rows.take(r + 1).drop_last() == rows.take(r as int));
            assert(rows.take(r + 1).last() == keys);
        }
        r += 1;
    }
    assert(rows.take(layout.len() as int) == rows);
    output
}

} // verus!
