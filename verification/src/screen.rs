//! The text of the picker's screens: the project list, the dependency table
//! and the confirmation list. Styling is left to the caller.
use std::collections::BTreeSet;
use vstd::prelude::*;
use crate::model::{section_label, status_label, selectable_indexes, AppMode, DependencyEntry, Project};
use crate::text::{chars_of, decimal, push_decimal, push_str, string_from_chars};

verus! {

/// `s` padded with spaces on the right to `width` characters.
pub open spec fn padded(s: Seq<char>, width: nat) -> Seq<char> {
    if s.len() >= width {
        s
    } else {
        s + Seq::new((width - s.len()) as nat, |i: int| ' ')
    }
}

/// Appends `s` padded with spaces on the right to `width` characters.
fn push_padded(out: &mut Vec<char>, s: &str, width: usize)
    ensures
        final(out)@ == old(out)@ + padded(s@, width as nat),
{
    let cs = chars_of(s);
    push_str(out, s);
    let mut k = cs.len();
    let ghost base = out@;
    while k < width
        invariant
            cs@ == s@,
            base == old(out)@ + s@,
            cs.len() <= k,
            k <= width || k == cs.len(),
            out@ == base + Seq::new((k - cs.len()) as nat, |i: int| ' '),
        decreases width - k,
    {
        out.push(' ');
        k = k + 1;
        assert(out@ =~= base + Seq::new((k - cs.len()) as nat, |i: int| ' '));
    }
    assert(out@ =~= old(out)@ + padded(s@, width as nat));
}

/// The length in bytes of a text (its UTF-8 encoding), as `str::len` gives it.
pub open spec fn byte_len(s: Seq<char>) -> nat {
    (vstd::utf8::encode_utf8(s).len() as usize) as nat
}

/// The widths of the columns of a dependency list: name, current version,
/// target version, newest version.
pub struct ColumnWidths {
    pub name: usize,
    pub current: usize,
    pub target: usize,
    pub latest: usize,
}

/// The newest version's text, `—` when unknown.
pub open spec fn latest_or_dash(entry: DependencyEntry) -> Seq<char> {
    match entry.latest_version_text {
        Some(t) => t@,
        None => "\u{2014}"@,
    }
}

/// The three measured columns of the dependency list.
pub enum Column {
    Name,
    Current,
    Latest,
}

/// The width in bytes of an entry's cell in a column.
pub open spec fn cell_bytes(entry: DependencyEntry, column: Column) -> nat {
    match column {
        Column::Name => byte_len(entry.display_name@),
        Column::Current => byte_len(entry.current_version_text@),
        Column::Latest => byte_len(latest_or_dash(entry)),
    }
}

/// The widest cell of a column over the entries, `default` when there are none.
pub open spec fn widest(deps: Seq<DependencyEntry>, column: Column, default: nat) -> nat
    decreases deps.len(),
{
    if deps.len() == 0 {
        default
    } else if deps.len() == 1 {
        cell_bytes(deps[0], column)
    } else {
        let rest = widest(deps.drop_last(), column, default);
        let last = cell_bytes(deps.last(), column);
        if last > rest { last } else { rest }
    }
}

/// The column widths: names between 7 and 30 bytes, current versions at
/// least 7, target and newest versions at least 6.
pub open spec fn column_widths_of(deps: Seq<DependencyEntry>) -> (nat, nat, nat, nat) {
    let name = widest(deps, Column::Name, 7);
    let current = widest(deps, Column::Current, 7);
    let latest = widest(deps, Column::Latest, 6);
    let name_w: nat = if name < 7 { 7 } else if name > 30 { 30 } else { name };
    let current_w: nat = if current < 7 { 7 } else { current };
    let latest_w: nat = if latest < 6 { 6 } else { latest };
    (name_w, current_w, latest_w, latest_w)
}

/// The length of `s` in bytes.
fn text_bytes(s: &str) -> (r: usize)
    ensures
        r == byte_len(s@),
{
    s.len()
}

fn latest_text_of(entry: &DependencyEntry) -> (r: &str)
    ensures
        r@ == latest_or_dash(*entry),
{
    match &entry.latest_version_text {
        Some(t) => t.as_str(),
        None => "\u{2014}",
    }
}

/// The column widths of a dependency list.
pub fn column_widths(deps: &Vec<DependencyEntry>) -> (r: ColumnWidths)
    ensures
        (r.name as nat, r.current as nat, r.target as nat, r.latest as nat) == column_widths_of(deps@),
{
    let mut name: usize = 7;
    let mut current: usize = 7;
    let mut latest: usize = 6;
    let n = deps.len();
    let mut i: usize = 0;
    while i < n
        invariant
            n == deps.len(),
            i <= n,
            name == widest(deps@.take(i as int), Column::Name, 7),
            current == widest(deps@.take(i as int), Column::Current, 7),
            latest == widest(deps@.take(i as int), Column::Latest, 6),
        decreases n - i,
    {
        let a = text_bytes(deps[i].display_name.as_str());
        let b = text_bytes(deps[i].current_version_text.as_str());
        let c = text_bytes(latest_text_of(&deps[i]));
        assert(a == cell_bytes(deps@[i as int], Column::Name));
        assert(b == cell_bytes(deps@[i as int], Column::Current));
        assert(c == cell_bytes(deps@[i as int], Column::Latest));
        assert(deps@.take(i + 1).drop_last() =~= deps@.take(i as int));
        assert(deps@.take(i + 1).last() == deps@[i as int]);
        if i == 0 {
            name = a;
            current = b;
            latest = c;
        } else {
            if a > name {
                name = a;
            }
            if b > current {
                current = b;
            }
            if c > latest {
                latest = c;
            }
        }
        i = i + 1;
    }
    assert(deps@.take(n as int) =~= deps@);
    let name = if name < 7 { 7 } else if name > 30 { 30 } else { name };
    let current = if current < 7 { 7 } else { current };
    let latest = if latest < 6 { 6 } else { latest };
    ColumnWidths { name, current, target: latest, latest }
}


/// `"{n} deps, {u} updates"`, or `"{n} deps, up to date"` when `u` is zero.
pub open spec fn summary_text(n: nat, u: nat) -> Seq<char> {
    if u > 0 {
        decimal(n) + " deps, "@ + decimal(u) + " updates"@
    } else {
        decimal(n) + " deps, up to date"@
    }
}

/// The project list's line for a project: its name behind the cursor mark
/// (`❯ ` on the cursor line, two spaces otherwise).
pub open spec fn project_heading_of(name: Seq<char>, is_cursor: bool) -> Seq<char> {
    (if is_cursor { "\u{276f} "@ } else { "  "@ }) + name
}

/// `"{prefix}{name}"` of the project list.
pub fn project_heading(project: &Project, is_cursor: bool) -> (r: String)
    ensures
        r@ == project_heading_of(project.name@, is_cursor),
{
    let mut out: Vec<char> = Vec::new();
    if is_cursor {
        push_str(&mut out, "\u{276f} ");
    } else {
        push_str(&mut out, "  ");
    }
    push_str(&mut out, project.name.as_str());
    string_from_chars(&out)
}

/// `"  ({summary})"` of the project list: the number of entries and of
/// available updates.
pub fn project_summary(project: &Project) -> (r: String)
    ensures
        r@ == "  ("@ + summary_text(project.dependencies@.len(), selectable_indexes(project.dependencies@).len())
            + ")"@,
{
    let updates = project.updates_available();
    let n = project.dependencies.len();
    let mut out: Vec<char> = Vec::new();
    push_str(&mut out, "  (");
    push_decimal(&mut out, n as u64);
    if updates > 0 {
        push_str(&mut out, " deps, ");
        push_decimal(&mut out, updates as u64);
        push_str(&mut out, " updates");
    } else {
        push_str(&mut out, " deps, up to date");
    }
    push_str(&mut out, ")");
    proof {
        assert(out@ =~= "  ("@ + summary_text(n as nat, updates as nat) + ")"@);
    }
    string_from_chars(&out)
}

/// `"  {count} selected"` above the dependency table.
pub fn selected_caption(project: &Project, selected: &BTreeSet<usize>) -> (r: String)
    ensures
        r@ == "  "@ + decimal(selected@.intersect(selectable_indexes(project.dependencies@)).len()) + " selected"@,
{
    let count = project.selected_count(selected);
    let mut out: Vec<char> = Vec::new();
    push_str(&mut out, "  ");
    push_decimal(&mut out, count as u64);
    push_str(&mut out, " selected");
    proof {
        assert(out@ =~= "  "@ + decimal(count as nat) + " selected"@);
    }
    string_from_chars(&out)
}

/// Whether the entry at `index` opens a new section of the table: the first
/// entry, and each entry whose section differs from the one before it.
pub fn begins_section(deps: &Vec<DependencyEntry>, index: usize) -> (r: bool)
    requires
        index < deps.len(),
    ensures
        r == (index == 0 || deps@[index - 1].section@ != deps@[index as int].section@),
{
    if index == 0 {
        true
    } else {
        !deps[index - 1].section.same_as(&deps[index].section)
    }
}

/// The header row of a section of the table.
pub open spec fn table_header_of(w: ColumnWidths) -> Seq<char> {
    "  "@ + padded("dependencies"@, (w.name + 4) as nat) + " "@ + padded("Current"@, w.current as nat) + " "@
        + padded("Target"@, w.target as nat) + " "@ + padded("Latest"@, w.latest as nat)
}

/// `"  dependencies Current Target Latest"`, each column padded to its width
/// (the name column four wider, for the cursor and checkbox).
pub fn table_header(widths: &ColumnWidths) -> (r: String)
    requires
        widths.name + 4 <= usize::MAX,
    ensures
        r@ == table_header_of(*widths),
{
    let mut out: Vec<char> = Vec::new();
    push_str(&mut out, "  ");
    push_padded(&mut out, "dependencies", widths.name + 4);
    push_str(&mut out, " ");
    push_padded(&mut out, "Current", widths.current);
    push_str(&mut out, " ");
    push_padded(&mut out, "Target", widths.target);
    push_str(&mut out, " ");
    push_padded(&mut out, "Latest", widths.latest);
    proof {
        assert(out@ =~= table_header_of(*widths));
    }
    string_from_chars(&out)
}

/// The cells of one row of the dependency table, each with its leading
/// separator.
pub struct DependencyCells {
    /// `❯ ` on the cursor row, two spaces otherwise.
    pub cursor: String,
    /// The checkbox (`◼` selected, `◻` not) and the display name.
    pub name: String,
    pub current: String,
    pub target: String,
    pub latest: String,
    /// Two spaces and the status label.
    pub status: String,
}

/// The checkbox and name cell.
pub open spec fn name_cell_of(entry: DependencyEntry, is_selected: bool, w: ColumnWidths) -> Seq<char> {
    padded((if is_selected { "\u{25fc} "@ } else { "\u{25fb} "@ }) + entry.display_name@, (w.name + 2) as nat)
}

/// The cells of the row of `entry`.
pub fn dependency_cells(entry: &DependencyEntry, is_cursor: bool, is_selected: bool, widths: &ColumnWidths) -> (r:
    DependencyCells)
    requires
        widths.name + 2 <= usize::MAX,
    ensures
        r.cursor@ == (if is_cursor { "\u{276f} "@ } else { "  "@ }),
        r.name@ == name_cell_of(*entry, is_selected, *widths),
        r.current@ == " "@ + padded(entry.current_version_text@, widths.current as nat),
        r.target@ == " "@ + padded(latest_or_dash(*entry), widths.target as nat),
        r.latest@ == " "@ + padded(latest_or_dash(*entry), widths.latest as nat),
        r.status@ == "  "@ + status_label(entry.status),
{
    let cursor = if is_cursor {
        String::from_str("\u{276f} ")
    } else {
        String::from_str("  ")
    };
    let mut label: Vec<char> = Vec::new();
    if is_selected {
        push_str(&mut label, "\u{25fc} ");
    } else {
        push_str(&mut label, "\u{25fb} ");
    }
    push_str(&mut label, entry.display_name.as_str());
    let label = string_from_chars(&label);
    let mut name: Vec<char> = Vec::new();
    push_padded(&mut name, label.as_str(), widths.name + 2);
    let latest = latest_text_of(entry);
    let mut current: Vec<char> = Vec::new();
    push_str(&mut current, " ");
    push_padded(&mut current, entry.current_version_text(), widths.current);
    let mut target: Vec<char> = Vec::new();
    push_str(&mut target, " ");
    push_padded(&mut target, latest, widths.target);
    let mut newest: Vec<char> = Vec::new();
    push_str(&mut newest, " ");
    push_padded(&mut newest, latest, widths.latest);
    let mut status: Vec<char> = Vec::new();
    push_str(&mut status, "  ");
    push_str(&mut status, entry.status.label());
    proof {
        assert(name@ =~= name_cell_of(*entry, is_selected, *widths));
        assert(current@ =~= " "@ + padded(entry.current_version_text@, widths.current as nat));
        assert(target@ =~= " "@ + padded(latest_or_dash(*entry), widths.target as nat));
        assert(newest@ =~= " "@ + padded(latest_or_dash(*entry), widths.latest as nat));
        assert(status@ =~= "  "@ + status_label(entry.status));
    }
    DependencyCells {
        cursor,
        name: string_from_chars(&name),
        current: string_from_chars(&current),
        target: string_from_chars(&target),
        latest: string_from_chars(&newest),
        status: string_from_chars(&status),
    }
}

/// The indexes, in increasing order, of the selected entries that have an
/// update: what the confirmation screen lists.
pub fn chosen_for_confirm(project: &Project, selected: &BTreeSet<usize>) -> (r: Vec<usize>)
    ensures
        r@.to_set() == selected@.intersect(selectable_indexes(project.dependencies@)),
        forall|a: int, b: int| 0 <= a < b < r.len() ==> r@[a] < r@[b],
{
    let deps = &project.dependencies;
    let n = deps.len();
    let mut out: Vec<usize> = Vec::new();
    let mut i: usize = 0;
    while i < n
        invariant
            n == deps.len(),
            deps == &project.dependencies,
            i <= n,
            out@.to_set() == selected@.intersect(selectable_indexes(deps@)).filter(|j: usize| j < i),
            forall|a: int, b: int| 0 <= a < b < out.len() ==> out@[a] < out@[b],
            forall|a: int| 0 <= a < out.len() ==> out@[a] < i,
        decreases n - i,
    {
        let ghost before = out@;
        if selected.contains(&i) && deps[i].selectable() {
            out.push(i);
            proof {
                before.lemma_push_to_set_commute(i);
            }
        }
        i = i + 1;
        assert(out@.to_set() =~= selected@.intersect(selectable_indexes(deps@)).filter(|j: usize| j < i));
    }
    assert(selected@.intersect(selectable_indexes(deps@)).filter(|j: usize| j < n)
        =~= selected@.intersect(selectable_indexes(deps@)));
    out
}

/// `"Apply {count} updates in {name}?"`.
pub fn confirm_title(project: &Project, count: usize) -> (r: String)
    ensures
        r@ == "Apply "@ + decimal(count as nat) + " updates in "@ + project.name@ + "?"@,
{
    let mut out: Vec<char> = Vec::new();
    push_str(&mut out, "Apply ");
    push_decimal(&mut out, count as u64);
    push_str(&mut out, " updates in ");
    push_str(&mut out, project.name.as_str());
    push_str(&mut out, "?");
    proof {
        assert(out@ =~= "Apply "@ + decimal(count as nat) + " updates in "@ + project.name@ + "?"@);
    }
    string_from_chars(&out)
}

/// The newest version's text, `unknown` when there is none.
pub open spec fn latest_or_unknown(entry: DependencyEntry) -> Seq<char> {
    match entry.latest_version_text {
        Some(t) => t@,
        None => "unknown"@,
    }
}

/// The confirmation screen's line for an entry.
pub open spec fn confirm_line_of(entry: DependencyEntry) -> Seq<char> {
    entry.display_name@ + "  "@ + entry.current_version_text@ + " -> "@ + latest_or_unknown(entry) + "  "@
        + section_label(entry.section@)
}

/// `"{name}  {current} -> {newest}  {section}"`.
pub fn confirm_line(entry: &DependencyEntry) -> (r: String)
    ensures
        r@ == confirm_line_of(*entry),
{
    let mut out: Vec<char> = Vec::new();
    push_str(&mut out, entry.display_name.as_str());
    push_str(&mut out, "  ");
    push_str(&mut out, entry.current_version_text());
    push_str(&mut out, " -> ");
    match &entry.latest_version_text {
        Some(t) => push_str(&mut out, t.as_str()),
        None => push_str(&mut out, "unknown"),
    }
    push_str(&mut out, "  ");
    let label = entry.section.label();
    push_str(&mut out, label.as_str());
    proof {
        assert(out@ =~= confirm_line_of(*entry));
    }
    string_from_chars(&out)
}

/// The prompt of each screen: its title and the keys it takes.
pub open spec fn prompt_of(mode: AppMode) -> (Seq<char>, Seq<char>) {
    match mode {
        AppMode::Project => ("Select a project"@, "  Enter open, j/k move, r refresh, q quit"@),
        AppMode::Dependencies => (
            "Select dependencies to update"@,
            "  Space toggle, Enter confirm, a all, n none, u outdated, r refresh, q quit"@,
        ),
        AppMode::Confirm => ("Confirm updates"@, "  y apply, n back, q quit"@),
    }
}

/// The title and key help shown at the top of a screen.
pub fn prompt(mode: AppMode) -> (r: (&'static str, &'static str))
    ensures
        (r.0@, r.1@) == prompt_of(mode),
{
    match mode {
        AppMode::Project => ("Select a project", "  Enter open, j/k move, r refresh, q quit"),
        AppMode::Dependencies => (
            "Select dependencies to update",
            "  Space toggle, Enter confirm, a all, n none, u outdated, r refresh, q quit",
        ),
        AppMode::Confirm => ("Confirm updates", "  y apply, n back, q quit"),
    }
}

} // verus!
