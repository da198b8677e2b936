//! Regression verdicts: how a room's reference picture and its converted map compare, and the
//! CSV report of a batch of rooms.
use vstd::prelude::*;

use crate::render::{PixelDiffMetrics, ReferenceStats};
use crate::text::{chars_of, dec_nat, push_char, push_dec_u64};

verus! {

broadcast use vstd::string::group_string_axioms;

/// `parts` with `sep` between each two.
pub open spec fn join(parts: Seq<Seq<char>>, sep: Seq<char>) -> Seq<char>
    decreases parts.len(),
{
    if parts.len() == 0 {
        seq![]
    } else if parts.len() == 1 {
        parts[0]
    } else {
        join(parts.drop_last(), sep) + sep + parts.last()
    }
}

pub open spec fn strings_view(v: Seq<String>) -> Seq<Seq<char>> {
    v.map_values(|s: String| s@)
}

/// The strings with `sep` between each two.
pub fn join_strings(parts: &Vec<String>, sep: &str) -> (r: String)
    ensures
        r@ == join(strings_view(parts@), sep@),
{
    let ghost pv = strings_view(parts@);
    let mut out = String::new();
    let mut i: usize = 0;
    assert(pv.subrange(0, 0) =~= Seq::<Seq<char>>::empty());
    while i < parts.len()
        invariant
            pv == strings_view(parts@),
            i <= parts@.len(),
            out@ == join(pv.subrange(0, i as int), sep@),
        decreases parts.len() - i,
    {
        let ghost before = pv.subrange(0, i as int);
        let ghost after = pv.subrange(0, i + 1);
        assert(after.drop_last() =~= before);
        assert(after.last() == parts@[i as int]@);
        if i > 0 {
            out.append(sep);
        } else {
            assert(after =~= seq![parts@[0]@]);
        }
        out.append(parts[i].as_str());
        i += 1;
    }
    assert(pv.subrange(0, parts@.len() as int) =~= pv);
    out
}

// ---------------------------------------------------------------------------------------------
// Verdicts
// ---------------------------------------------------------------------------------------------

/// The verdict for a room, the first that applies: no static tiles to compare; GMS2 tile
/// words with bits set above the tile index; pictures of different sizes; no pixel
/// differing; some pixel differing.
pub open spec fn spec_status(stats: ReferenceStats, metrics: PixelDiffMetrics) -> Seq<char> {
    if stats.static_draw_ops == 0 {
        "NO_STATIC_MAP"@
    } else if stats.gms2_flagged_tiles > 0 {
        "UNSUPPORTED_FLAGS"@
    } else if !metrics.size_match {
        "FAIL_SIZE"@
    } else if metrics.ae_pixels == 0 {
        "PASS"@
    } else {
        "FAIL"@
    }
}

/// The verdict for a room, from its reference counts and the comparison of the pictures.
pub fn determine_status(stats: &ReferenceStats, metrics: &PixelDiffMetrics) -> (r: &'static str)
    ensures
        r@ == spec_status(*stats, *metrics),
{
    if stats.static_draw_ops == 0 {
        return "NO_STATIC_MAP";
    }
    if stats.gms2_flagged_tiles > 0 {
        return "UNSUPPORTED_FLAGS";
    }
    if !metrics.size_match {
        return "FAIL_SIZE";
    }
    if metrics.ae_pixels == 0 {
        "PASS"
    } else {
        "FAIL"
    }
}

/// The notes for a room: what the static comparison leaves out.
pub open spec fn note_parts(s: ReferenceStats) -> Seq<Seq<char>> {
    (if s.instance_count > 0 {
        seq!["instances_skipped="@ + dec_nat(s.instance_count as nat)]
    } else {
        seq![]
    }) + (if s.enabled_view_count > 0 {
        seq!["views_ignored="@ + dec_nat(s.enabled_view_count as nat)]
    } else {
        seq![]
    }) + (if s.gms2_flagged_tiles > 0 {
        seq!["gms2_flags_ignored="@ + dec_nat(s.gms2_flagged_tiles as nat)]
    } else {
        seq![]
    }) + (if s.static_draw_ops == 0 {
        seq!["no_static_tiles"@]
    } else {
        seq![]
    })
}

fn counted_note(label: &str, n: u64) -> (r: String)
    ensures
        r@ == label@ + dec_nat(n as nat),
{
    let mut s = String::new();
    s.append(label);
    push_dec_u64(&mut s, n);
    s
}

/// The notes for a room, separated by `;`.
pub fn build_notes(stats: &ReferenceStats) -> (r: String)
    ensures
        r@ == join(note_parts(*stats), ";"@),
{
    let mut parts: Vec<String> = Vec::new();
    if stats.instance_count > 0 {
        parts.push(counted_note("instances_skipped=", stats.instance_count as u64));
    }
    if stats.enabled_view_count > 0 {
        parts.push(counted_note("views_ignored=", stats.enabled_view_count as u64));
    }
    if stats.gms2_flagged_tiles > 0 {
        parts.push(counted_note("gms2_flags_ignored=", stats.gms2_flagged_tiles));
    }
    if stats.static_draw_ops == 0 {
        parts.push("no_static_tiles".to_string());
    }
    assert(strings_view(parts@) =~= note_parts(*stats));
    join_strings(&parts, ";")
}

// ---------------------------------------------------------------------------------------------
// CSV
// ---------------------------------------------------------------------------------------------

/// Whether a field must be quoted: it holds a comma, a quote or a line break.
pub open spec fn needs_quotes(s: Seq<char>) -> bool {
    s.contains(',') || s.contains('"') || s.contains('\n')
}

/// `s` with every quote doubled.
pub open spec fn double_quotes(s: Seq<char>) -> Seq<char>
    decreases s.len(),
{
    if s.len() == 0 {
        seq![]
    } else {
        double_quotes(s.drop_last()) + if s.last() == '"' {
            seq!['"', '"']
        } else {
            seq![s.last()]
        }
    }
}

/// A CSV field: quoted, with its quotes doubled, when it needs quotes; else as it is.
pub open spec fn spec_csv_escape(s: Seq<char>) -> Seq<char> {
    if needs_quotes(s) {
        seq!['"'] + double_quotes(s) + seq!['"']
    } else {
        s
    }
}

/// Writes a value as a CSV field.
pub fn csv_escape(value: &str) -> (r: String)
    ensures
        r@ == spec_csv_escape(value@),
{
    let v = chars_of(value);
    let mut quote = false;
    let mut i: usize = 0;
    while i < v.len()
        invariant
            i <= v@.len(),
            quote == exists|j: int| 0 <= j < i && (v@[j] == ',' || v@[j] == '"' || v@[j] == '\n'),
        decreases v.len() - i,
    {
        if v[i] == ',' || v[i] == '"' || v[i] == '\n' {
            quote = true;
        }
        i += 1;
    }
    assert(quote == needs_quotes(v@)) by {
        if quote {
            let j = choose|j: int| 0 <= j < v@.len() && (v@[j] == ',' || v@[j] == '"' || v@[j] == '\n');
            if v@[j] == ',' {
                assert(v@.contains(','));
            } else if v@[j] == '"' {
                assert(v@.contains('"'));
            } else {
                assert(v@.contains('\n'));
            }
        }
    }
    let mut out = String::new();
    if !quote {
        out.append(value);
        return out;
    }
    push_char(&mut out, '"');
    let mut k: usize = 0;
    while k < v.len()
        invariant
            k <= v@.len(),
            out@ == seq!['"'] + double_quotes(v@.subrange(0, k as int)),
        decreases v.len() - k,
    {
        assert(v@.subrange(0, k + 1).drop_last() =~= v@.subrange(0, k as int));
        if v[k] == '"' {
            push_char(&mut out, '"');
            push_char(&mut out, '"');
        } else {
            push_char(&mut out, v[k]);
        }
        assert(out@ =~= seq!['"'] + double_quotes(v@.subrange(0, k + 1)));
        k += 1;
    }
    push_char(&mut out, '"');
    assert(v@.subrange(0, v@.len() as int) =~= v@);
    assert(out@ =~= seq!['"'] + double_quotes(v@) + seq!['"']);
    out
}

/// One line of the regression report, its fields already written as text.
pub struct CsvRow {
    pub dataset: String,
    pub room: String,
    pub status: String,
    pub ae_pixels: String,
    pub ae_percent: String,
    pub rmse: String,
    pub size_match: String,
    pub static_draw_ops: String,
    pub gms2_flagged_tiles: String,
    pub instance_count: String,
    pub enabled_view_count: String,
    pub notes: String,
}

impl CsvRow {
    /// The fields of the row in column order.
    pub open spec fn fields(&self) -> Seq<Seq<char>> {
        seq![
            self.dataset@,
            self.room@,
            self.status@,
            self.ae_pixels@,
            self.ae_percent@,
            self.rmse@,
            self.size_match@,
            self.static_draw_ops@,
            self.gms2_flagged_tiles@,
            self.instance_count@,
            self.enabled_view_count@,
            self.notes@,
        ]
    }
}

pub open spec fn csv_header() -> Seq<char> {
    "dataset,room,status,ae_pixels,ae_percent,rmse,size_match,static_draw_ops,gms2_flagged_tiles,instance_count,enabled_view_count,notes\n"@
}

/// A row as a CSV line: its escaped fields separated by commas, then a line break.
pub open spec fn csv_line(r: CsvRow) -> Seq<char> {
    join(r.fields().map_values(|f: Seq<char>| spec_csv_escape(f)), ","@) + seq!['\n']
}

/// The lines of the first `n` rows.
pub open spec fn csv_lines(rows: Seq<CsvRow>, n: int) -> Seq<char>
    decreases n,
{
    if n <= 0 {
        seq![]
    } else {
        csv_lines(rows, n - 1) + csv_line(rows[n - 1])
    }
}

/// The report: the header line, then one line per row.
pub open spec fn spec_csv_content(rows: Seq<CsvRow>) -> Seq<char> {
    csv_header() + csv_lines(rows, rows.len() as int)
}

fn csv_row_line(row: &CsvRow) -> (r: String)
    ensures
        r@ == csv_line(*row),
{
    let mut fields: Vec<String> = Vec::new();
    fields.push(csv_escape(row.dataset.as_str()));
    fields.push(csv_escape(row.room.as_str()));
    fields.push(csv_escape(row.status.as_str()));
    fields.push(csv_escape(row.ae_pixels.as_str()));
    fields.push(csv_escape(row.ae_percent.as_str()));
    fields.push(csv_escape(row.rmse.as_str()));
    fields.push(csv_escape(row.size_match.as_str()));
    fields.push(csv_escape(row.static_draw_ops.as_str()));
    fields.push(csv_escape(row.gms2_flagged_tiles.as_str()));
    fields.push(csv_escape(row.instance_count.as_str()));
    fields.push(csv_escape(row.enabled_view_count.as_str()));
    fields.push(csv_escape(row.notes.as_str()));
    assert(strings_view(fields@) =~= row.fields().map_values(|f: Seq<char>| spec_csv_escape(f)));
    let mut line = join_strings(&fields, ",");
    push_char(&mut line, '\n');
    line
}

/// The text of the regression report.
pub fn csv_content(rows: &Vec<CsvRow>) -> (r: String)
    ensures
        r@ == spec_csv_content(rows@),
{
    let mut out = String::new();
    out.append(
        "dataset,room,status,ae_pixels,ae_percent,rmse,size_match,static_draw_ops,gms2_flagged_tiles,instance_count,enabled_view_count,notes\n",
    );
    let mut i: usize = 0;
    while i < rows.len()
        invariant
            i <= rows@.len(),
            out@ == csv_header() + csv_lines(rows@, i as int),
        decreases rows.len() - i,
    {
        let line = csv_row_line(&rows[i]);
        out.append(line.as_str());
        assert(out@ =~= csv_header() + csv_lines(rows@, i + 1));
        i += 1;
    }
    out
}

} // verus!
