//! The renderers: one function per output mode, each with an exact
//! character-level contract, and the dispatch that routes a resolved mode to
//! its renderer. The structured formats (JSON, YAML) write every string as a
//! double-quoted, escaped scalar in a fixed field order.

use vstd::prelude::*;
use crate::aggregate::GroupView;
use crate::aggregate::LicenseGroup;
use crate::aggregate::group_by_license;
use crate::aggregate::groups_of;
use crate::aggregate::groups_view;
use crate::errors::ReportError;
use crate::modes::OutputMode;
use crate::records::PackageList;
use crate::records::PackageRecord;
use crate::records::RecordView;
use crate::records::stripped;
use crate::stats::compute_stats;
use crate::stats::found_count_of;
use crate::stats::rounded_percentage;
use crate::stats::text_found;
use crate::text::check_marker;
use crate::text::decimal_of;
use crate::text::escape_str;
use crate::text::escape_string;
use crate::text::marker_spec;
use crate::text::pad_right;
use crate::text::pad_right_spec;
use crate::text::u8_to_decimal;

verus! {

/// Width of the two columns of the stats table.
pub const STATS_COLUMN_WIDTH: usize = 30;

/// A string as a double-quoted, escaped scalar.
pub open spec fn quoted(s: Seq<char>) -> Seq<char> {
    "\""@ + escape_str(s) + "\""@
}

/// An optional string as a quoted scalar, or the null literal when absent.
pub open spec fn quoted_or_null(v: Option<Seq<char>>) -> Seq<char> {
    match v {
        Some(s) => quoted(s),
        None => "null"@,
    }
}

/// The license identifier, or its placeholder when none was determined.
pub open spec fn license_or_unknown(v: Option<Seq<char>>) -> Seq<char> {
    match v {
        Some(s) => s,
        None => "(unknown)"@,
    }
}

/// One record of the full text dump: name line, license line, then the
/// license text set off by a blank line when one was located, and a blank
/// line after the record.
pub open spec fn full_record_block(r: RecordView) -> Seq<char> {
    "Package: "@ + r.name + "\nLicense: "@ + license_or_unknown(r.license_identifier) + "\n"@ + (
    match r.license_text {
        Some(t) => "\n"@ + t + "\n"@,
        None => Seq::<char>::empty(),
    }) + "\n"@
}

/// The full text dump: every record's block in input order.
pub open spec fn full_render_spec(s: Seq<RecordView>) -> Seq<char>
    decreases s.len(),
{
    if s.len() == 0 {
        Seq::<char>::empty()
    } else {
        full_render_spec(s.drop_last()) + full_record_block(s.last())
    }
}

/// Member names joined by a comma and a space, with no trailing separator.
pub open spec fn comma_join(ms: Seq<Seq<char>>) -> Seq<char>
    decreases ms.len(),
{
    if ms.len() == 0 {
        Seq::<char>::empty()
    } else if ms.len() == 1 {
        ms[0]
    } else {
        comma_join(ms.drop_last()) + ", "@ + ms.last()
    }
}

/// One line of the short mode: the license identifier, then the package
/// names that share it.
pub open spec fn short_group_line(g: GroupView) -> Seq<char> {
    g.license + ": "@ + comma_join(g.members) + "\n"@
}

/// The short mode: one line per license group, in first-occurrence order.
pub open spec fn short_render_spec(gs: Seq<GroupView>) -> Seq<char>
    decreases gs.len(),
{
    if gs.len() == 0 {
        Seq::<char>::empty()
    } else {
        short_render_spec(gs.drop_last()) + short_group_line(gs.last())
    }
}

/// One row of the stats table: padded name, padded found marker.
pub open spec fn stats_row(r: RecordView) -> Seq<char> {
    pad_right_spec(r.name, STATS_COLUMN_WIDTH as int) + pad_right_spec(
        marker_spec(text_found(r)),
        STATS_COLUMN_WIDTH as int,
    ) + "\n"@
}

/// All rows of the stats table, in input order.
pub open spec fn stats_rows(s: Seq<RecordView>) -> Seq<char>
    decreases s.len(),
{
    if s.len() == 0 {
        Seq::<char>::empty()
    } else {
        stats_rows(s.drop_last()) + stats_row(s.last())
    }
}

/// The stats mode: header, one row per record, and the summary line with
/// the rounded percentage of located license texts.
pub open spec fn stats_render_spec(s: Seq<RecordView>) -> Seq<char>
    recommends
        s.len() > 0,
{
    pad_right_spec("name"@, STATS_COLUMN_WIDTH as int) + pad_right_spec(
        "license found"@,
        STATS_COLUMN_WIDTH as int,
    ) + "\n"@ + stats_rows(s) + "\nlicense found: "@ + decimal_of(
        rounded_percentage(found_count_of(s), s.len() as int),
    ) + "%\n"@
}

/// One record as a pretty-printed JSON object, fields in declaration order.
pub open spec fn json_record(r: RecordView) -> Seq<char> {
    "  {\n    \"name\": "@ + quoted(r.name) + ",\n    \"license_identifier\": "@ + quoted_or_null(
        r.license_identifier,
    ) + ",\n    \"license_text\": "@ + quoted_or_null(r.license_text) + "\n  }"@
}

/// The records as JSON objects joined by a comma and a line break.
pub open spec fn json_items(s: Seq<RecordView>) -> Seq<char>
    decreases s.len(),
{
    if s.len() == 0 {
        Seq::<char>::empty()
    } else if s.len() == 1 {
        json_record(s[0])
    } else {
        json_items(s.drop_last()) + ",\n"@ + json_record(s.last())
    }
}

/// The JSON mode: a pretty-printed array of record objects.
pub open spec fn json_render_spec(s: Seq<RecordView>) -> Seq<char> {
    if s.len() == 0 {
        "[]"@
    } else {
        "[\n"@ + json_items(s) + "\n]"@
    }
}

/// One record as a YAML block-sequence entry, fields in declaration order.
pub open spec fn yaml_record(r: RecordView) -> Seq<char> {
    "- name: "@ + quoted(r.name) + "\n  license_identifier: "@ + quoted_or_null(
        r.license_identifier,
    ) + "\n  license_text: "@ + quoted_or_null(r.license_text) + "\n"@
}

/// The YAML mode: a block sequence of record mappings, or the empty flow
/// sequence for an empty list.
pub open spec fn yaml_render_spec(s: Seq<RecordView>) -> Seq<char>
    decreases s.len(),
{
    if s.len() == 0 {
        "[]\n"@
    } else if s.len() == 1 {
        yaml_record(s[0])
    } else {
        yaml_render_spec(s.drop_last()) + yaml_record(s.last())
    }
}

/// Appends an optional string as a quoted scalar or the null literal.
fn append_quoted_or_null(out: &mut String, v: &Option<String>)
    ensures
        final(out)@ == old(out)@ + quoted_or_null(
            match *v {
                Some(ref s) => Some(s@),
                None => None,
            },
        ),
{
    let ghost before = out@;
    match v {
        None => out.append("null"),
        Some(s) => {
            out.append("\"");
            let esc = escape_string(s.as_str());
            out.append(esc.as_str());
            out.append("\"");
            proof {
                assert(out@ =~= before + quoted(s@));
            }
        },
    }
}

/// Renders one record of the full text dump.
fn full_record_string(rec: &PackageRecord) -> (r: String)
    ensures
        r@ == full_record_block(rec@),
{
    let mut out = String::from_str("Package: ");
    out.append(rec.name.as_str());
    out.append("\nLicense: ");
    match &rec.license_identifier {
        Some(id) => out.append(id.as_str()),
        None => out.append("(unknown)"),
    }
    out.append("\n");
    match &rec.license_text {
        Some(t) => {
            out.append("\n");
            out.append(t.as_str());
            out.append("\n");
        },
        None => {},
    }
    out.append("\n");
    proof {
        assert(out@ =~= full_record_block(rec@));
    }
    out
}

/// Renders the full text dump of the list, in input order.
pub fn render_full(pl: &PackageList) -> (r: String)
    ensures
        r@ == full_render_spec(pl@),
{
    let mut out = String::new();
    let mut i: usize = 0;
    while i < pl.records.len()
        invariant
            i <= pl.records.len(),
            pl.records.len() == pl@.len(),
            out@ == full_render_spec(pl@.take(i as int)),
        decreases pl.records.len() - i,
    {
        let block = full_record_string(&pl.records[i]);
        out.append(block.as_str());
        proof {
            assert(pl@.take(i as int + 1).drop_last() =~= pl@.take(i as int));
            assert(pl@.take(i as int + 1).last() == pl@[i as int]);
        }
        i = i + 1;
    }
    proof {
        assert(pl@.take(pl@.len() as int) =~= pl@);
    }
    out
}

/// Joins the member names of one group with comma separators.
fn join_members(ms: &Vec<String>) -> (r: String)
    ensures
        r@ == comma_join(ms@.map_values(|m: String| m@)),
{
    let ghost mv = ms@.map_values(|m: String| m@);
    let mut out = String::new();
    let mut k: usize = 0;
    while k < ms.len()
        invariant
            k <= ms.len(),
            mv == ms@.map_values(|m: String| m@),
            mv.len() == ms@.len(),
            out@ == comma_join(mv.take(k as int)),
        decreases ms.len() - k,
    {
        if k > 0 {
            out.append(", ");
        }
        out.append(ms[k].as_str());
        proof {
            assert(mv.take(k as int + 1).drop_last() =~= mv.take(k as int));
            assert(mv.take(k as int + 1).last() == mv[k as int]);
            if k == 0 {
                assert(out@ =~= comma_join(mv.take(1)));
            } else {
                assert(out@ =~= comma_join(mv.take(k as int + 1)));
            }
        }
        k = k + 1;
    }
    proof {
        assert(mv.take(mv.len() as int) =~= mv);
    }
    out
}

/// Renders the short mode: groups the list and prints one line per group.
pub fn render_short(pl: &PackageList) -> (r: String)
    ensures
        r@ == short_render_spec(groups_of(pl@)),
{
    let gs: Vec<LicenseGroup> = group_by_license(pl);
    let ghost gv = groups_view(gs@);
    let mut out = String::new();
    let mut i: usize = 0;
    while i < gs.len()
        invariant
            i <= gs.len(),
            gv == groups_view(gs@),
            gv.len() == gs@.len(),
            gv == groups_of(pl@),
            out@ == short_render_spec(gv.take(i as int)),
        decreases gs.len() - i,
    {
        let g = &gs[i];
        out.append(g.license.as_str());
        out.append(": ");
        let joined = join_members(&g.members);
        out.append(joined.as_str());
        out.append("\n");
        proof {
            assert(gv.take(i as int + 1).drop_last() =~= gv.take(i as int));
            assert(gv.take(i as int + 1).last() == gv[i as int]);
            assert(out@ =~= short_render_spec(gv.take(i as int)) + short_group_line(
                gv[i as int],
            ));
        }
        i = i + 1;
    }
    proof {
        assert(gv.take(gv.len() as int) =~= gv);
    }
    out
}

/// Renders the stats mode: the found/not-found table and the percentage
/// summary, or the empty-dataset error for an empty list.
pub fn render_stats(pl: &PackageList) -> (r: Result<String, ReportError>)
    ensures
        pl@.len() == 0 <==> r is Err,
        r is Err ==> r->Err_0 == ReportError::EmptyDataset,
        r is Ok ==> r->Ok_0@ == stats_render_spec(pl@),
{
    let stats = match compute_stats(pl) {
        Ok(s) => s,
        Err(e) => {
            return Err(e);
        },
    };
    let mut out = pad_right("name", STATS_COLUMN_WIDTH);
    let second = pad_right("license found", STATS_COLUMN_WIDTH);
    out.append(second.as_str());
    out.append("\n");
    let ghost header = out@;
    let mut i: usize = 0;
    while i < pl.records.len()
        invariant
            i <= pl.records.len(),
            pl.records.len() == pl@.len(),
            header == pad_right_spec("name"@, STATS_COLUMN_WIDTH as int) + pad_right_spec(
                "license found"@,
                STATS_COLUMN_WIDTH as int,
            ) + "\n"@,
            out@ == header + stats_rows(pl@.take(i as int)),
        decreases pl.records.len() - i,
    {
        let rec = &pl.records[i];
        let name_cell = pad_right(rec.name.as_str(), STATS_COLUMN_WIDTH);
        out.append(name_cell.as_str());
        let marker = check_marker(rec.license_text.is_some());
        let marker_cell = pad_right(marker, STATS_COLUMN_WIDTH);
        out.append(marker_cell.as_str());
        out.append("\n");
        proof {
            assert(pl@.take(i as int + 1).drop_last() =~= pl@.take(i as int));
            assert(pl@.take(i as int + 1).last() == pl@[i as int]);
            assert(out@ =~= header + (stats_rows(pl@.take(i as int)) + stats_row(
                pl@[i as int],
            )));
        }
        i = i + 1;
    }
    out.append("\nlicense found: ");
    let pct = stats.percentage();
    let pct_str = u8_to_decimal(pct);
    out.append(pct_str.as_str());
    out.append("%\n");
    proof {
        assert(pl@.take(pl@.len() as int) =~= pl@);
        assert(out@ =~= stats_render_spec(pl@));
    }
    Ok(out)
}

/// Renders one record as a pretty-printed JSON object.
fn json_record_string(rec: &PackageRecord) -> (r: String)
    ensures
        r@ == json_record(rec@),
{
    let mut out = String::from_str("  {\n    \"name\": ");
    out.append("\"");
    let esc = escape_string(rec.name.as_str());
    out.append(esc.as_str());
    out.append("\"");
    out.append(",\n    \"license_identifier\": ");
    append_quoted_or_null(&mut out, &rec.license_identifier);
    out.append(",\n    \"license_text\": ");
    append_quoted_or_null(&mut out, &rec.license_text);
    out.append("\n  }");
    proof {
        assert(out@ =~= json_record(rec@));
    }
    out
}

/// Renders the JSON mode: a pretty-printed array of the records.
pub fn render_json(pl: &PackageList) -> (r: String)
    ensures
        r@ == json_render_spec(pl@),
{
    if pl.records.len() == 0 {
        return String::from_str("[]");
    }
    let mut out = String::from_str("[\n");
    let mut i: usize = 0;
    while i < pl.records.len()
        invariant
            i <= pl.records.len(),
            pl.records.len() == pl@.len(),
            out@ == "[\n"@ + json_items(pl@.take(i as int)),
        decreases pl.records.len() - i,
    {
        if i > 0 {
            out.append(",\n");
        }
        let block = json_record_string(&pl.records[i]);
        out.append(block.as_str());
        proof {
            assert(pl@.take(i as int + 1).drop_last() =~= pl@.take(i as int));
            assert(pl@.take(i as int + 1).last() == pl@[i as int]);
            assert(pl@.take(i as int + 1)[0] == pl@[0]);
            if i == 0 {
                assert(out@ =~= "[\n"@ + json_items(pl@.take(1)));
            } else {
                assert(out@ =~= "[\n"@ + (json_items(pl@.take(i as int)) + ",\n"@ + json_record(
                    pl@[i as int],
                )));
            }
        }
        i = i + 1;
    }
    out.append("\n]");
    proof {
        assert(pl@.take(pl@.len() as int) =~= pl@);
        assert(out@ =~= json_render_spec(pl@));
    }
    out
}

/// Renders one record as a YAML block-sequence entry.
fn yaml_record_string(rec: &PackageRecord) -> (r: String)
    ensures
        r@ == yaml_record(rec@),
{
    let mut out = String::from_str("- name: ");
    out.append("\"");
    let esc = escape_string(rec.name.as_str());
    out.append(esc.as_str());
    out.append("\"");
    out.append("\n  license_identifier: ");
    append_quoted_or_null(&mut out, &rec.license_identifier);
    out.append("\n  license_text: ");
    append_quoted_or_null(&mut out, &rec.license_text);
    out.append("\n");
    proof {
        assert(out@ =~= yaml_record(rec@));
    }
    out
}

/// Renders the YAML mode: a block sequence of the records.
pub fn render_yaml(pl: &PackageList) -> (r: String)
    ensures
        r@ == yaml_render_spec(pl@),
{
    if pl.records.len() == 0 {
        return String::from_str("[]\n");
    }
    let mut out = String::new();
    let mut i: usize = 0;
    while i < pl.records.len()
        invariant
            i <= pl.records.len(),
            pl.records.len() == pl@.len(),
            pl@.len() > 0,
            i > 0 ==> out@ == yaml_render_spec(pl@.take(i as int)),
            i == 0 ==> out@ == Seq::<char>::empty(),
        decreases pl.records.len() - i,
    {
        let block = yaml_record_string(&pl.records[i]);
        out.append(block.as_str());
        proof {
            assert(pl@.take(i as int + 1).drop_last() =~= pl@.take(i as int));
            assert(pl@.take(i as int + 1).last() == pl@[i as int]);
            assert(pl@.take(i as int + 1)[0] == pl@[0]);
            if i == 0 {
                assert(out@ =~= yaml_render_spec(pl@.take(1)));
            }
        }
        i = i + 1;
    }
    proof {
        assert(pl@.take(pl@.len() as int) =~= pl@);
    }
    out
}

/// Renders the three whole-list text modes on the given list.
fn render_plain(mode: OutputMode, pl: &PackageList) -> (r: String)
    requires
        mode == OutputMode::Full || mode == OutputMode::SelfLicense || mode == OutputMode::Json
            || mode == OutputMode::Yaml,
    ensures
        mode == OutputMode::Full || mode == OutputMode::SelfLicense ==> r@ == full_render_spec(
            pl@,
        ),
        mode == OutputMode::Json ==> r@ == json_render_spec(pl@),
        mode == OutputMode::Yaml ==> r@ == yaml_render_spec(pl@),
{
    match mode {
        OutputMode::Json => render_json(pl),
        OutputMode::Yaml => render_yaml(pl),
        _ => render_full(pl),
    }
}

/// Routes a resolved output mode to its renderer. The full, JSON and YAML
/// modes render the list with license texts stripped when so requested; the
/// short and stats modes never show license text. The self-license mode
/// renders the caller-supplied embedded list as a full dump and ignores the
/// stripping toggle, as it ignores every other flag. The stats mode signals
/// the empty-dataset condition on an empty list; every other mode renders
/// the empty list as an empty report.
pub fn render_report(mode: OutputMode, pl: &PackageList, omit_license_text: bool) -> (r: Result<
    String,
    ReportError,
>)
    ensures
        mode == OutputMode::Short ==> r is Ok && r->Ok_0@ == short_render_spec(groups_of(pl@)),
        mode == OutputMode::Stats ==> {
            &&& r is Ok <==> pl@.len() > 0
            &&& (r is Ok ==> r->Ok_0@ == stats_render_spec(pl@))
            &&& (r is Err ==> r->Err_0 == ReportError::EmptyDataset)
        },
        mode == OutputMode::SelfLicense ==> r is Ok && r->Ok_0@ == full_render_spec(pl@),
        mode == OutputMode::Full ==> r is Ok && r->Ok_0@ == full_render_spec(
            if omit_license_text {
                stripped(pl@)
            } else {
                pl@
            },
        ),
        mode == OutputMode::Json ==> r is Ok && r->Ok_0@ == json_render_spec(
            if omit_license_text {
                stripped(pl@)
            } else {
                pl@
            },
        ),
        mode == OutputMode::Yaml ==> r is Ok && r->Ok_0@ == yaml_render_spec(
            if omit_license_text {
                stripped(pl@)
            } else {
                pl@
            },
        ),
{
    match mode {
        OutputMode::Short => Ok(render_short(pl)),
        OutputMode::Stats => render_stats(pl),
        OutputMode::SelfLicense => Ok(render_full(pl)),
        _ => {
            if omit_license_text {
                let stripped_list = pl.strip_license_texts();
                Ok(render_plain(mode, &stripped_list))
            } else {
                Ok(render_plain(mode, pl))
            }
        },
    }
}

} // verus!
