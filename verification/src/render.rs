//! What the list shows: one row for each entry, its path and a status glyph.

use vstd::prelude::*;
use crate::probe::{decimal_value, digit_run, is_digit, lemma_run_extends, parse_counts};
use crate::status::{GitStatus, ProjectStatus};
use crate::store::{EntryModel, ProjectEntry, models_of};

verus! {

/// The character that writes the digit `d`.
pub open spec fn digit_char(d: nat) -> char {
    if d == 0 {
        '0'
    } else if d == 1 {
        '1'
    } else if d == 2 {
        '2'
    } else if d == 3 {
        '3'
    } else if d == 4 {
        '4'
    } else if d == 5 {
        '5'
    } else if d == 6 {
        '6'
    } else if d == 7 {
        '7'
    } else if d == 8 {
        '8'
    } else {
        '9'
    }
}

/// The digits of `n` in base ten, without leading zeros.
pub open spec fn decimal_digits(n: nat) -> Seq<char>
    decreases n,
{
    if n < 10 {
        seq![digit_char(n)]
    } else {
        decimal_digits(n / 10).push(digit_char(n % 10))
    }
}

/// The glyph that stands for a status: the word `Unchecked`, an ellipsis
/// while a probe is in flight, a check mark for an up-to-date copy, an arrow
/// down or up followed by the count for a copy that is behind or ahead, and
/// a cross for a failure.
pub open spec fn glyph_of(status: ProjectStatus) -> Seq<char> {
    match status {
        ProjectStatus::Unchecked => seq!['U', 'n', 'c', 'h', 'e', 'c', 'k', 'e', 'd'],
        ProjectStatus::Waiting => seq!['\u{2026}'],
        ProjectStatus::Complete(GitStatus::UpToDate) => seq!['\u{2713}'],
        ProjectStatus::Complete(GitStatus::LocalBehind(n)) => seq!['\u{2193}'] + decimal_digits(n as nat),
        ProjectStatus::Complete(GitStatus::RemoteBehind(n)) => seq!['\u{2191}'] + decimal_digits(n as nat),
        ProjectStatus::Failed => seq!['\u{2717}'],
    }
}

/// The text of a row: the path, a space, and the glyph of the status.
pub open spec fn row_of(e: EntryModel) -> Seq<char> {
    e.path + seq![' '] + glyph_of(e.status)
}

/// The text of the digit `d`.
fn digit_text(d: u32) -> (t: &'static str)
    requires
        d < 10,
    ensures
        t@ == seq![digit_char(d as nat)],
{
    proof {
        reveal_strlit("0");
        reveal_strlit("1");
        reveal_strlit("2");
        reveal_strlit("3");
        reveal_strlit("4");
        reveal_strlit("5");
        reveal_strlit("6");
        reveal_strlit("7");
        reveal_strlit("8");
        reveal_strlit("9");
    }
    let t = if d == 0 {
        "0"
    } else if d == 1 {
        "1"
    } else if d == 2 {
        "2"
    } else if d == 3 {
        "3"
    } else if d == 4 {
        "4"
    } else if d == 5 {
        "5"
    } else if d == 6 {
        "6"
    } else if d == 7 {
        "7"
    } else if d == 8 {
        "8"
    } else {
        "9"
    };
    assert(t@ =~= seq![digit_char(d as nat)]);
    t
}

/// Appends the digits of `n` to `out`.
pub fn push_decimal(out: &mut String, n: u32)
    ensures
        final(out)@ == old(out)@ + decimal_digits(n as nat),
    decreases n,
{
    if n >= 10 {
        push_decimal(out, n / 10);
    }
    out.append(digit_text(n % 10));
    assert(out@ =~= old(out)@ + decimal_digits(n as nat));
}

/// The glyph of a status, as text.
pub fn status_glyph(status: &ProjectStatus) -> (g: String)
    ensures
        g@ == glyph_of(*status),
{
    proof {
        reveal_strlit("Unchecked");
        reveal_strlit("\u{2026}");
        reveal_strlit("\u{2713}");
        reveal_strlit("\u{2193}");
        reveal_strlit("\u{2191}");
        reveal_strlit("\u{2717}");
    }
    let mut g = String::new();
    match status {
        ProjectStatus::Unchecked => {
            g.append("Unchecked");
        },
        ProjectStatus::Waiting => {
            g.append("\u{2026}");
        },
        ProjectStatus::Complete(GitStatus::UpToDate) => {
            g.append("\u{2713}");
        },
        ProjectStatus::Complete(GitStatus::LocalBehind(n)) => {
            g.append("\u{2193}");
            push_decimal(&mut g, *n);
        },
        ProjectStatus::Complete(GitStatus::RemoteBehind(n)) => {
            g.append("\u{2191}");
            push_decimal(&mut g, *n);
        },
        ProjectStatus::Failed => {
            g.append("\u{2717}");
        },
    }
    assert(g@ =~= glyph_of(*status));
    g
}

/// The row of one entry.
pub fn render_row(entry: &ProjectEntry) -> (row: String)
    ensures
        row@ == row_of(entry@),
{
    proof {
        reveal_strlit(" ");
    }
    let mut row = entry.path.clone();
    row.append(" ");
    let g = status_glyph(&entry.status);
    row.append(g.as_str());
    assert(row@ =~= row_of(entry@));
    row
}

/// The rows of a snapshot: one for each entry, in the snapshot's order.
pub fn render_rows(snapshot: &Vec<ProjectEntry>) -> (rows: Vec<String>)
    ensures
        rows@.len() == snapshot@.len(),
        forall|i: int| 0 <= i < rows@.len() ==> (#[trigger] rows@[i])@ == row_of(snapshot@[i]@),
{
    let mut rows: Vec<String> = Vec::new();
    let mut i: usize = 0;
    while i < snapshot.len()
        invariant
            i <= snapshot@.len(),
            rows@.len() == i,
            forall|j: int| 0 <= j < i ==> (#[trigger] rows@[j])@ == row_of(snapshot@[j]@),
        decreases snapshot@.len() - i,
    {
        rows.push(render_row(&snapshot[i]));
        i = i + 1;
    }
    rows
}

/// Two snapshots with the same entries give the same rows, and a row begins
/// with the path of its entry.
pub proof fn lemma_rows_follow_entries(a: Seq<ProjectEntry>, b: Seq<ProjectEntry>, i: int)
    requires
        models_of(a) == models_of(b),
        0 <= i < a.len(),
    ensures
        a.len() == b.len(),
        row_of(a[i]@) == row_of(b[i]@),
        row_of(a[i]@).subrange(0, a[i]@.path.len() as int) == a[i]@.path,
{
    assert(models_of(a).len() == a.len());
    assert(models_of(b).len() == b.len());
    assert(models_of(a)[i] == a[i]@);
    assert(models_of(b)[i] == b[i]@);
    assert(row_of(a[i]@).subrange(0, a[i]@.path.len() as int) =~= a[i]@.path);
}

/// The bytes that write `n` in base ten.
pub open spec fn decimal_bytes(n: nat) -> Seq<u8> {
    decimal_digits(n).map_values(|c: char| c as u8)
}

/// The digits written for a number are digits, at least one, and their
/// value is the number.
pub proof fn lemma_decimal_bytes(n: nat)
    ensures
        decimal_bytes(n).len() > 0,
        forall|i: int| 0 <= i < decimal_bytes(n).len() ==> is_digit(#[trigger] decimal_bytes(n)[i]),
        decimal_value(decimal_bytes(n)) == n,
    decreases n,
{
    if n < 10 {
        assert(decimal_bytes(n) =~= seq![(48 + n) as u8]);
        assert(decimal_bytes(n).drop_last() =~= Seq::<u8>::empty());
        assert(decimal_value(decimal_bytes(n).drop_last()) == 0);
    } else {
        lemma_decimal_bytes(n / 10);
        assert(decimal_bytes(n) =~= decimal_bytes(n / 10).push((48 + n % 10) as u8));
        assert(decimal_bytes(n).drop_last() =~= decimal_bytes(n / 10));
    }
}

/// Two counts written in base ten with a tab between them are read back as
/// the same two counts.
pub proof fn lemma_counts_read_back(local_only: u32, remote_only: u32)
    ensures
        parse_counts(
            decimal_bytes(local_only as nat) + seq![9u8] + decimal_bytes(remote_only as nat),
        ) == Some((local_only, remote_only)),
{
    let x = decimal_bytes(local_only as nat);
    let y = decimal_bytes(remote_only as nat);
    let s = x + seq![9u8] + y;
    let mid = x.len() as int;
    lemma_decimal_bytes(local_only as nat);
    lemma_decimal_bytes(remote_only as nat);
    assert forall|j: int| 0 <= j < mid implies is_digit(#[trigger] s[j]) by {
        assert(s[j] == x[j]);
    }
    assert forall|j: int| mid + 1 <= j < s.len() implies is_digit(#[trigger] s[j]) by {
        assert(s[j] == y[j - mid - 1]);
    }
    assert(s[mid] == 9u8);
    lemma_run_extends(s, 0, mid);
    assert(digit_run(s, mid) == 0);
    lemma_run_extends(s, mid + 1, s.len() as int);
    assert(digit_run(s, s.len() as int) == 0);
    assert(s.subrange(0, mid) =~= x);
    assert(s.subrange(mid + 1, s.len() as int) =~= y);
}

} // verus!
