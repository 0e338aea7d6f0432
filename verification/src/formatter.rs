//! Rendering of a change list: verbose lines, a compact report, a colored
//! variant, and a structured JSON document.

use vstd::prelude::*;

use crate::codec::pretty_text;
use crate::diff::{ChangeModel, Diff, DiffType};
use crate::text::{dec_digits, dec_int};
use crate::value::{obj_get, obj_key_idx, Value, ValueModel};

verus! {

/// The textual rendering of a tree: JSON-like, with object entries in
/// their stored order and no escaping inside strings.
pub open spec fn render_model(v: ValueModel) -> Seq<char>
    decreases v, 0int,
{
    match v {
        ValueModel::Null => "null"@,
        ValueModel::Bool(b) => if b {
            "true"@
        } else {
            "false"@
        },
        ValueModel::Number(n) => dec_int(n),
        ValueModel::Text(s) => "\""@ + s + "\""@,
        ValueModel::Array(a) => "["@ + render_items(a, 0) + "]"@,
        ValueModel::Object(o) => "{"@ + render_entries(o, 0) + "}"@,
    }
}

/// The comma-separated renderings of array elements from index `i` on.
pub open spec fn render_items(a: Seq<ValueModel>, i: int) -> Seq<char>
    decreases a, a.len() - i,
{
    if i < 0 || i >= a.len() {
        Seq::empty()
    } else if i == a.len() - 1 {
        render_model(a[i])
    } else {
        render_model(a[i]) + ", "@ + render_items(a, i + 1)
    }
}

/// The comma-separated renderings of object entries from index `i` on.
pub open spec fn render_entries(o: Seq<(Seq<char>, ValueModel)>, i: int) -> Seq<char>
    decreases o, o.len() - i,
{
    if i < 0 || i >= o.len() {
        Seq::empty()
    } else if i == o.len() - 1 {
        "\""@ + o[i].0 + "\": "@ + render_model(o[i].1)
    } else {
        "\""@ + o[i].0 + "\": "@ + render_model(o[i].1) + ", "@ + render_entries(o, i + 1)
    }
}

/// The rendering of an optional value: empty when absent.
pub open spec fn opt_render(v: Option<ValueModel>) -> Seq<char> {
    match v {
        Some(x) => render_model(x),
        None => Seq::empty(),
    }
}

/// The one-character marker of a change kind.
pub open spec fn kind_marker(k: DiffType) -> Seq<char> {
    match k {
        DiffType::Added => "+"@,
        DiffType::Removed => "-"@,
        DiffType::Modified => "~"@,
        DiffType::Moved => ">"@,
    }
}

/// The color label of a change kind, for consumers that apply their own
/// color mapping.
pub open spec fn kind_color(k: DiffType) -> Seq<char> {
    match k {
        DiffType::Added => "green"@,
        DiffType::Removed => "red"@,
        DiffType::Modified => "yellow"@,
        DiffType::Moved => "cyan"@,
    }
}

/// The name of a change kind, as it appears in the structured report.
pub open spec fn kind_name(k: DiffType) -> Seq<char> {
    match k {
        DiffType::Added => "Added"@,
        DiffType::Removed => "Removed"@,
        DiffType::Modified => "Modified"@,
        DiffType::Moved => "Moved"@,
    }
}

/// The value part of a change line: the relevant side, `old -> new` for a
/// substitution.
pub open spec fn change_values(c: ChangeModel) -> Seq<char> {
    match c.kind {
        DiffType::Added => opt_render(c.new_value),
        DiffType::Removed => opt_render(c.old_value),
        DiffType::Modified => opt_render(c.old_value) + " -> "@ + opt_render(c.new_value),
        DiffType::Moved => opt_render(c.new_value),
    }
}

/// One verbose line: marker, path, and (when shown) the values.
pub open spec fn verbose_line(c: ChangeModel, show_values: bool) -> Seq<char> {
    kind_marker(c.kind) + " "@ + c.path + ": "@ + (if show_values {
        change_values(c)
    } else {
        Seq::empty()
    }) + "\n"@
}

/// The verbose lines of the records from index `i` on.
pub open spec fn verbose_lines(cs: Seq<ChangeModel>, show_values: bool, i: int) -> Seq<char>
    decreases cs.len() - i,
{
    if i < 0 || i >= cs.len() {
        Seq::empty()
    } else {
        verbose_line(cs[i], show_values) + verbose_lines(cs, show_values, i + 1)
    }
}

/// One colored line: marker, color label, path, and (when shown) the
/// values.
pub open spec fn colored_line(c: ChangeModel, show_values: bool) -> Seq<char> {
    kind_marker(c.kind) + " ["@ + kind_color(c.kind) + "]: "@ + c.path + " "@ + (if show_values {
        change_values(c)
    } else {
        Seq::empty()
    }) + "\n"@
}

/// The colored lines of the records from index `i` on.
pub open spec fn colored_lines(cs: Seq<ChangeModel>, show_values: bool, i: int) -> Seq<char>
    decreases cs.len() - i,
{
    if i < 0 || i >= cs.len() {
        Seq::empty()
    } else {
        colored_line(cs[i], show_values) + colored_lines(cs, show_values, i + 1)
    }
}

/// One record as a human-readable sentence.
pub open spec fn display_text(c: ChangeModel) -> Seq<char> {
    match c.kind {
        DiffType::Added => "Added at '"@ + c.path + "': "@ + opt_render(c.new_value),
        DiffType::Removed => "Removed from '"@ + c.path + "': "@ + opt_render(c.old_value),
        DiffType::Modified => "Modified at '"@ + c.path + "': "@ + opt_render(c.old_value)
            + " -> "@ + opt_render(c.new_value),
        DiffType::Moved => "Moved: "@ + c.path + " -> "@ + opt_render(c.new_value),
    }
}

/// The numbered sentences of the records from index `i` on.
pub open spec fn compact_lines(cs: Seq<ChangeModel>, i: int) -> Seq<char>
    decreases cs.len() - i,
{
    if i < 0 || i >= cs.len() {
        Seq::empty()
    } else {
        dec_digits(i + 1) + ". "@ + display_text(cs[i]) + "\n"@ + compact_lines(cs, i + 1)
    }
}

/// The compact report: a fixed sentence for an empty change list, else a
/// header stating the count followed by one numbered sentence per record.
pub open spec fn compact_report(cs: Seq<ChangeModel>) -> Seq<char> {
    if cs.len() == 0 {
        "No differences found"@
    } else {
        "Found "@ + dec_digits(cs.len() as int) + " difference(s):\n"@ + compact_lines(cs, 0)
    }
}

/// How many records carry the given kind.
pub open spec fn count_kind(cs: Seq<ChangeModel>, k: DiffType) -> int {
    cs.filter(|c: ChangeModel| c.kind == k).len() as int
}

/// An optional value as a tree: absent becomes null.
pub open spec fn opt_tree(v: Option<ValueModel>) -> ValueModel {
    match v {
        Some(x) => x,
        None => ValueModel::Null,
    }
}

/// One record of the structured report's `diffs` array.
pub open spec fn change_doc(c: ChangeModel) -> ValueModel {
    ValueModel::Object(
        seq![
            ("path"@, ValueModel::Text(c.path)),
            ("type"@, ValueModel::Text(kind_name(c.kind))),
            ("old_value"@, opt_tree(c.old_value)),
            ("new_value"@, opt_tree(c.new_value)),
        ],
    )
}

/// The structured report's `summary` record: the total and one counter
/// per kind.
pub open spec fn summary_doc(cs: Seq<ChangeModel>) -> ValueModel {
    ValueModel::Object(
        seq![
            ("total"@, ValueModel::Number(cs.len() as int)),
            ("added"@, ValueModel::Number(count_kind(cs, DiffType::Added))),
            ("removed"@, ValueModel::Number(count_kind(cs, DiffType::Removed))),
            ("modified"@, ValueModel::Number(count_kind(cs, DiffType::Modified))),
            ("moved"@, ValueModel::Number(count_kind(cs, DiffType::Moved))),
        ],
    )
}

/// The structured report: a `diffs` array with one record per change and
/// a `summary` record of counts.
pub open spec fn report_doc(cs: Seq<ChangeModel>) -> ValueModel {
    ValueModel::Object(
        seq![
            ("diffs"@, ValueModel::Array(cs.map_values(|c: ChangeModel| change_doc(c)))),
            ("summary"@, summary_doc(cs)),
        ],
    )
}

/// Renders a tree as text, per `render_model`.
#[verifier::loop_isolation(false)]
pub fn render_value(v: &Value) -> (s: String)
    ensures
        s@ == render_model(v@),
    decreases *v,
{
    match v {
        Value::Null => "null".to_owned(),
        Value::Bool(b) => if *b {
            "true".to_owned()
        } else {
            "false".to_owned()
        },
        Value::Number(n) => crate::text::i64_to_string(*n),
        Value::Text(t) => {
            let mut s = "\"".to_owned();
            s.append(t.as_str());
            s.append("\"");
            proof {
                assert(s@ =~= render_model(v@));
            }
            s
        },
        Value::Array(a) => {
            let ghost ad = v@->Array_0;
            proof {
                assert(ad =~= a.deep_view());
            }
            let mut s = "[".to_owned();
            let mut i: usize = 0;
            while i < a.len()
                invariant
                    0 <= i <= a.len(),
                    s@ + render_items(ad, i as int) == "["@ + render_items(ad, 0),
                decreases a.len() - i,
            {
                let ghost pre = s@;
                proof {
                    assert(decreases_to!(*v => v->Array_0));
                    assert(decreases_to!(*a => a@));
                    assert(decreases_to!(a@ => a@[i as int]));
                    assert(ad[i as int] == a@[i as int]@);
                }
                let item = render_value(&a[i]);
                s.append(item.as_str());
                if i + 1 < a.len() {
                    s.append(", ");
                    proof {
                        assert(render_items(ad, i as int) == render_model(ad[i as int]) + ", "@
                            + render_items(ad, i + 1));
                        assert(s@ + render_items(ad, i + 1) =~= pre + render_items(ad, i as int));
                    }
                } else {
                    proof {
                        assert(render_items(ad, i as int) == render_model(ad[i as int]));
                        assert(render_items(ad, i + 1) =~= Seq::<char>::empty());
                        assert(s@ + render_items(ad, i + 1) =~= pre + render_items(ad, i as int));
                    }
                }
                i = i + 1;
            }
            s.append("]");
            proof {
                assert(render_items(ad, a@.len() as int) =~= Seq::<char>::empty());
                assert(s@ =~= render_model(v@));
            }
            s
        },
        Value::Object(m) => {
            let ghost od = v@->Object_0;
            proof {
                assert forall|t: int| 0 <= t < m@.len() implies od[t] == m.deep_view()[t] by {}
                assert(od =~= m.deep_view());
            }
            let mut s = "{".to_owned();
            let mut i: usize = 0;
            while i < m.len()
                invariant
                    0 <= i <= m.len(),
                    s@ + render_entries(od, i as int) == "{"@ + render_entries(od, 0),
                decreases m.len() - i,
            {
                let ghost pre = s@;
                proof {
                    assert(decreases_to!(*v => v->Object_0));
                    assert(decreases_to!(*m => m@));
                    assert(decreases_to!(m@ => m@[i as int]));
                    assert(decreases_to!(m@[i as int] => m@[i as int].1));
                    assert(od[i as int] == (m@[i as int].0@, m@[i as int].1@));
                }
                let entry = &m[i];
                s.append("\"");
                s.append(entry.0.as_str());
                s.append("\": ");
                let item = render_value(&entry.1);
                s.append(item.as_str());
                if i + 1 < m.len() {
                    s.append(", ");
                    proof {
                        assert(render_entries(od, i as int) == "\""@ + od[i as int].0 + "\": "@
                            + render_model(od[i as int].1) + ", "@ + render_entries(od, i + 1));
                        assert(s@ + render_entries(od, i + 1) =~= pre + render_entries(
                            od,
                            i as int,
                        ));
                    }
                } else {
                    proof {
                        assert(render_entries(od, i as int) == "\""@ + od[i as int].0 + "\": "@
                            + render_model(od[i as int].1));
                        assert(render_entries(od, i + 1) =~= Seq::<char>::empty());
                        assert(s@ + render_entries(od, i + 1) =~= pre + render_entries(
                            od,
                            i as int,
                        ));
                    }
                }
                i = i + 1;
            }
            s.append("}");
            proof {
                assert(render_entries(od, m@.len() as int) =~= Seq::<char>::empty());
                assert(s@ =~= render_model(v@));
            }
            s
        },
    }
}

/// The one-character marker of a change kind.
fn marker_str(k: DiffType) -> (s: &'static str)
    ensures
        s@ == kind_marker(k),
{
    match k {
        DiffType::Added => "+",
        DiffType::Removed => "-",
        DiffType::Modified => "~",
        DiffType::Moved => ">",
    }
}

/// The color label of a change kind.
fn color_str(k: DiffType) -> (s: &'static str)
    ensures
        s@ == kind_color(k),
{
    match k {
        DiffType::Added => "green",
        DiffType::Removed => "red",
        DiffType::Modified => "yellow",
        DiffType::Moved => "cyan",
    }
}

/// The name of a change kind.
fn kind_name_str(k: DiffType) -> (s: &'static str)
    ensures
        s@ == kind_name(k),
{
    match k {
        DiffType::Added => "Added",
        DiffType::Removed => "Removed",
        DiffType::Modified => "Modified",
        DiffType::Moved => "Moved",
    }
}

/// Renders an optional value, empty when absent.
fn opt_render_string(v: &Option<Value>) -> (s: String)
    ensures
        s@ == opt_render(
            match *v {
                Some(x) => Some(x@),
                None => None,
            },
        ),
{
    match v {
        Some(x) => render_value(x),
        None => String::new(),
    }
}

/// The value part of one change line.
fn change_values_string(d: &Diff) -> (s: String)
    ensures
        s@ == change_values(d@),
{
    match d.diff_type {
        DiffType::Added => opt_render_string(&d.new_value),
        DiffType::Removed => opt_render_string(&d.old_value),
        DiffType::Modified => {
            let mut s = opt_render_string(&d.old_value);
            s.append(" -> ");
            let n = opt_render_string(&d.new_value);
            s.append(n.as_str());
            proof {
                assert(s@ =~= change_values(d@));
            }
            s
        },
        DiffType::Moved => opt_render_string(&d.new_value),
    }
}

impl Diff {
    /// The record as a human-readable sentence, as the compact report
    /// prints it.
    pub fn display(&self) -> (r: String)
        ensures
            r@ == display_text(self@),
    {
        match self.diff_type {
            DiffType::Added => {
                let mut s = "Added at '".to_owned();
                s.append(self.path.as_str());
                s.append("': ");
                let val = opt_render_string(&self.new_value);
                s.append(val.as_str());
                proof {
                    assert(s@ =~= display_text(self@));
                }
                s
            },
            DiffType::Removed => {
                let mut s = "Removed from '".to_owned();
                s.append(self.path.as_str());
                s.append("': ");
                let val = opt_render_string(&self.old_value);
                s.append(val.as_str());
                proof {
                    assert(s@ =~= display_text(self@));
                }
                s
            },
            DiffType::Modified => {
                let mut s = "Modified at '".to_owned();
                s.append(self.path.as_str());
                s.append("': ");
                let old_val = opt_render_string(&self.old_value);
                s.append(old_val.as_str());
                s.append(" -> ");
                let new_val = opt_render_string(&self.new_value);
                s.append(new_val.as_str());
                proof {
                    assert(s@ =~= display_text(self@));
                }
                s
            },
            DiffType::Moved => {
                let mut s = "Moved: ".to_owned();
                s.append(self.path.as_str());
                s.append(" -> ");
                let val = opt_render_string(&self.new_value);
                s.append(val.as_str());
                proof {
                    assert(s@ =~= display_text(self@));
                }
                s
            },
        }
    }
}

/// The change formatter: an indent string (kept for configuration
/// parity; the renderings do not use it) and whether values are shown.
pub struct DiffFormatter {
    indent: String,
    show_values: bool,
}

impl DiffFormatter {
    /// The configured indent string.
    pub closed spec fn spec_indent(&self) -> Seq<char> {
        self.indent@
    }

    /// Whether the verbose and colored renderings include values.
    pub closed spec fn shows_values(&self) -> bool {
        self.show_values
    }

    /// A formatter with a two-space indent that shows values.
    pub fn new() -> (r: Self)
        ensures
            r.spec_indent() == "  "@,
            r.shows_values(),
    {
        DiffFormatter { indent: "  ".to_owned(), show_values: true }
    }

    /// Selects the indent string.
    pub fn indent(self, indent: &str) -> (r: Self)
        ensures
            r.spec_indent() == indent@,
            r.shows_values() == self.shows_values(),
    {
        DiffFormatter { indent: indent.to_owned(), show_values: self.show_values }
    }

    /// Selects whether values are shown.
    pub fn show_values(self, show: bool) -> (r: Self)
        ensures
            r.spec_indent() == self.spec_indent(),
            r.shows_values() == show,
    {
        DiffFormatter { indent: self.indent, show_values: show }
    }

    /// Renders one line per change: marker, path, and the values when
    /// shown.
    #[verifier::loop_isolation(false)]
    pub fn format(&self, diffs: &Vec<Diff>) -> (r: String)
        ensures
            r@ == verbose_lines(diffs.deep_view(), self.shows_values(), 0),
    {
        let ghost cs = diffs.deep_view();
        let mut out = String::new();
        let mut i: usize = 0;
        while i < diffs.len()
            invariant
                0 <= i <= diffs.len(),
                out@ + verbose_lines(cs, self.shows_values(), i as int) == verbose_lines(
                    cs,
                    self.shows_values(),
                    0,
                ),
            decreases diffs.len() - i,
        {
            let ghost pre = out@;
            let d = &diffs[i];
            proof {
                assert(cs[i as int] == d@);
            }
            out.append(marker_str(d.diff_type));
            out.append(" ");
            out.append(d.path.as_str());
            out.append(": ");
            if self.show_values {
                let vals = change_values_string(d);
                out.append(vals.as_str());
            }
            out.append("\n");
            proof {
                assert(out@ =~= pre + verbose_line(cs[i as int], self.shows_values()));
                assert(out@ + verbose_lines(cs, self.shows_values(), i + 1) =~= pre
                    + verbose_lines(cs, self.shows_values(), i as int));
            }
            i = i + 1;
        }
        proof {
            assert(verbose_lines(cs, self.shows_values(), diffs@.len() as int) =~= Seq::<
                char,
            >::empty());
            assert(out@ =~= verbose_lines(cs, self.shows_values(), 0));
        }
        out
    }

    /// Renders one line per change with a color label, for consumers
    /// that apply their own color mapping.
    #[verifier::loop_isolation(false)]
    pub fn format_colored(&self, diffs: &Vec<Diff>) -> (r: String)
        ensures
            r@ == colored_lines(diffs.deep_view(), self.shows_values(), 0),
    {
        let ghost cs = diffs.deep_view();
        let mut out = String::new();
        let mut i: usize = 0;
        while i < diffs.len()
            invariant
                0 <= i <= diffs.len(),
                out@ + colored_lines(cs, self.shows_values(), i as int) == colored_lines(
                    cs,
                    self.shows_values(),
                    0,
                ),
            decreases diffs.len() - i,
        {
            let ghost pre = out@;
            let d = &diffs[i];
            proof {
                assert(cs[i as int] == d@);
            }
            out.append(marker_str(d.diff_type));
            out.append(" [");
            out.append(color_str(d.diff_type));
            out.append("]: ");
            out.append(d.path.as_str());
            out.append(" ");
            if self.show_values {
                let vals = change_values_string(d);
                out.append(vals.as_str());
            }
            out.append("\n");
            proof {
                assert(out@ =~= pre + colored_line(cs[i as int], self.shows_values()));
                assert(out@ + colored_lines(cs, self.shows_values(), i + 1) =~= pre
                    + colored_lines(cs, self.shows_values(), i as int));
            }
            i = i + 1;
        }
        proof {
            assert(colored_lines(cs, self.shows_values(), diffs@.len() as int) =~= Seq::<
                char,
            >::empty());
            assert(out@ =~= colored_lines(cs, self.shows_values(), 0));
        }
        out
    }

    /// Renders the compact report: the fixed sentence when there is no
    /// change, else a header stating the count and one numbered sentence
    /// per change.
    #[verifier::loop_isolation(false)]
    pub fn format_compact(&self, diffs: &Vec<Diff>) -> (r: String)
        ensures
            r@ == compact_report(diffs.deep_view()),
    {
        let ghost cs = diffs.deep_view();
        if diffs.len() == 0 {
            return "No differences found".to_owned();
        }
        let mut out = "Found ".to_owned();
        let count = crate::text::u64_to_string(diffs.len() as u64);
        out.append(count.as_str());
        out.append(" difference(s):\n");
        let ghost header = out@;
        let mut i: usize = 0;
        while i < diffs.len()
            invariant
                0 <= i <= diffs.len(),
                out@ + compact_lines(cs, i as int) == header + compact_lines(cs, 0),
            decreases diffs.len() - i,
        {
            let ghost pre = out@;
            let d = &diffs[i];
            proof {
                assert(cs[i as int] == d@);
            }
            let num = crate::text::u64_to_string((i + 1) as u64);
            out.append(num.as_str());
            out.append(". ");
            let line = d.display();
            out.append(line.as_str());
            out.append("\n");
            proof {
                assert(out@ =~= pre + (dec_digits(i + 1) + ". "@ + display_text(cs[i as int])
                    + "\n"@));
                assert(out@ + compact_lines(cs, i + 1) =~= pre + compact_lines(cs, i as int));
            }
            i = i + 1;
        }
        proof {
            assert(compact_lines(cs, diffs@.len() as int) =~= Seq::<char>::empty());
            assert(out@ =~= compact_report(cs));
        }
        out
    }
}

/// An optional value as an owned tree, absent becoming null.
fn opt_tree_value(v: &Option<Value>) -> (r: Value)
    ensures
        r@ == opt_tree(
            match *v {
                Some(x) => Some(x@),
                None => None,
            },
        ),
{
    match v {
        Some(x) => crate::value::deep_copy(x),
        None => Value::Null,
    }
}

/// Taking one more record moves its kind's counter by one.
proof fn lemma_count_step(cs: Seq<ChangeModel>, k: DiffType, i: int)
    requires
        0 <= i < cs.len(),
    ensures
        count_kind(cs.take(i + 1), k) == count_kind(cs.take(i), k) + if cs[i].kind == k {
            1int
        } else {
            0int
        },
{
    reveal_with_fuel(Seq::<ChangeModel>::filter, 2);
    let s1 = cs.take(i + 1);
    assert(s1.drop_last() =~= cs.take(i));
    assert(s1.last() == cs[i]);
}

/// The four per-kind counters partition the records: their sum is the
/// length of the change list.
pub proof fn lemma_counts_partition(cs: Seq<ChangeModel>)
    ensures
        count_kind(cs, DiffType::Added) + count_kind(cs, DiffType::Removed) + count_kind(
            cs,
            DiffType::Modified,
        ) + count_kind(cs, DiffType::Moved) == cs.len(),
    decreases cs.len(),
{
    reveal_with_fuel(Seq::<ChangeModel>::filter, 2);
    if cs.len() > 0 {
        lemma_counts_partition(cs.drop_last());
    }
}

/// The structured report's summary, as `format_json` serializes it: the
/// `total` field equals the length of the `diffs` array and equals the
/// sum of the four per-kind counters.
pub proof fn lemma_report_summary(cs: Seq<ChangeModel>)
    ensures
        obj_get(report_doc(cs)->Object_0, "diffs"@) == ValueModel::Array(
            cs.map_values(|c: ChangeModel| change_doc(c)),
        ),
        obj_get(report_doc(cs)->Object_0, "diffs"@)->Array_0.len() == cs.len(),
        obj_get(report_doc(cs)->Object_0, "summary"@) == summary_doc(cs),
        obj_get(summary_doc(cs)->Object_0, "total"@) == ValueModel::Number(cs.len() as int),
        obj_get(summary_doc(cs)->Object_0, "total"@) == ValueModel::Number(
            count_kind(cs, DiffType::Added) + count_kind(cs, DiffType::Removed) + count_kind(
                cs,
                DiffType::Modified,
            ) + count_kind(cs, DiffType::Moved),
        ),
{
    lemma_counts_partition(cs);
    reveal_strlit("diffs");
    reveal_strlit("summary");
    reveal_strlit("total");
    let top = report_doc(cs)->Object_0;
    assert(top[0].0 == "diffs"@);
    assert(obj_key_idx(top, "diffs"@) == 0);
    assert("diffs"@.len() != "summary"@.len());
    assert(top[0].0 != "summary"@);
    let rest = seq![("summary"@, summary_doc(cs))];
    assert(top.drop_first() =~= rest);
    assert(obj_key_idx(rest, "summary"@) == 0);
    assert(obj_key_idx(top, "summary"@) == 1);
    let sm = summary_doc(cs)->Object_0;
    assert(sm[0].0 == "total"@);
    assert(obj_key_idx(sm, "total"@) == 0);
}

/// An empty change list renders as the fixed no-differences sentence.
pub proof fn lemma_compact_empty(cs: Seq<ChangeModel>)
    requires
        cs.len() == 0,
    ensures
        compact_report(cs) == "No differences found"@,
{
}

/// A non-empty change list renders with a header stating the exact
/// count of changes.
pub proof fn lemma_compact_header(cs: Seq<ChangeModel>)
    requires
        cs.len() > 0,
    ensures
        ({
            let header = "Found "@ + dec_digits(cs.len() as int) + " difference(s):\n"@;
            compact_report(cs).take(header.len() as int) == header
        }),
{
    let header = "Found "@ + dec_digits(cs.len() as int) + " difference(s):\n"@;
    assert(compact_report(cs).take(header.len() as int) =~= header);
}

impl DiffFormatter {
    /// Renders the structured report: a `diffs` array with one record
    /// per change (path, kind name, old and new value) and a `summary`
    /// record of counts, pretty-printed as JSON text.
    #[verifier::loop_isolation(false)]
    pub fn format_json(&self, diffs: &Vec<Diff>) -> (r: String)
        requires
            diffs@.len() <= i64::MAX as int,
        ensures
            r@ == pretty_text(report_doc(diffs.deep_view())),
    {
        let ghost cs = diffs.deep_view();
        let mut arr: Vec<Value> = Vec::new();
        let mut added: usize = 0;
        let mut removed: usize = 0;
        let mut modified: usize = 0;
        let mut moved: usize = 0;
        let mut i: usize = 0;
        while i < diffs.len()
            invariant
                0 <= i <= diffs.len(),
                arr@.len() == i,
                arr.deep_view() =~= cs.take(i as int).map_values(|c: ChangeModel| change_doc(c)),
                added == count_kind(cs.take(i as int), DiffType::Added),
                removed == count_kind(cs.take(i as int), DiffType::Removed),
                modified == count_kind(cs.take(i as int), DiffType::Modified),
                moved == count_kind(cs.take(i as int), DiffType::Moved),
                added + removed + modified + moved == i,
            decreases diffs.len() - i,
        {
            let ghost pre = arr.deep_view();
            let d = &diffs[i];
            proof {
                assert(cs[i as int] == d@);
            }
            let mut fields: Vec<(String, Value)> = Vec::new();
            fields.push(("path".to_owned(), Value::Text(d.path.clone())));
            fields.push(("type".to_owned(), Value::Text(kind_name_str(d.diff_type).to_owned())));
            fields.push(("old_value".to_owned(), opt_tree_value(&d.old_value)));
            fields.push(("new_value".to_owned(), opt_tree_value(&d.new_value)));
            let rec = Value::Object(fields);
            proof {
                let entries = rec@->Object_0;
                assert(crate::value::value_model(fields@[0].1) == ValueModel::Text(d.path@));
                assert(crate::value::value_model(fields@[1].1) == ValueModel::Text(
                    kind_name(d.diff_type),
                ));
                assert(entries[0] == change_doc(cs[i as int])->Object_0[0]);
                assert(entries[1] == change_doc(cs[i as int])->Object_0[1]);
                assert(entries[2] == change_doc(cs[i as int])->Object_0[2]);
                assert(entries[3] == change_doc(cs[i as int])->Object_0[3]);
                assert(entries =~= change_doc(cs[i as int])->Object_0);
                assert(rec@ == change_doc(cs[i as int]));
            }
            arr.push(rec);
            match d.diff_type {
                DiffType::Added => {
                    added = added + 1;
                },
                DiffType::Removed => {
                    removed = removed + 1;
                },
                DiffType::Modified => {
                    modified = modified + 1;
                },
                DiffType::Moved => {
                    moved = moved + 1;
                },
            }
            proof {
                lemma_count_step(cs, DiffType::Added, i as int);
                lemma_count_step(cs, DiffType::Removed, i as int);
                lemma_count_step(cs, DiffType::Modified, i as int);
                lemma_count_step(cs, DiffType::Moved, i as int);
                assert(arr.deep_view() =~= pre.push(change_doc(cs[i as int])));
                assert(arr.deep_view() =~= cs.take(i + 1).map_values(
                    |c: ChangeModel| change_doc(c),
                ));
            }
            i = i + 1;
        }
        proof {
            assert(cs.take(diffs@.len() as int) =~= cs);
            assert(arr.deep_view() =~= cs.map_values(|c: ChangeModel| change_doc(c)));
        }
        let total = diffs.len();
        let mut sfields: Vec<(String, Value)> = Vec::new();
        sfields.push(("total".to_owned(), Value::Number(total as i64)));
        sfields.push(("added".to_owned(), Value::Number(added as i64)));
        sfields.push(("removed".to_owned(), Value::Number(removed as i64)));
        sfields.push(("modified".to_owned(), Value::Number(modified as i64)));
        sfields.push(("moved".to_owned(), Value::Number(moved as i64)));
        let summary = Value::Object(sfields);
        proof {
            let entries = summary@->Object_0;
            assert(crate::value::value_model(sfields@[0].1) == ValueModel::Number(
                cs.len() as int,
            ));
            assert(crate::value::value_model(sfields@[1].1) == ValueModel::Number(
                count_kind(cs, DiffType::Added),
            ));
            assert(crate::value::value_model(sfields@[2].1) == ValueModel::Number(
                count_kind(cs, DiffType::Removed),
            ));
            assert(crate::value::value_model(sfields@[3].1) == ValueModel::Number(
                count_kind(cs, DiffType::Modified),
            ));
            assert(crate::value::value_model(sfields@[4].1) == ValueModel::Number(
                count_kind(cs, DiffType::Moved),
            ));
            assert(entries[0] == summary_doc(cs)->Object_0[0]);
            assert(entries[1] == summary_doc(cs)->Object_0[1]);
            assert(entries[2] == summary_doc(cs)->Object_0[2]);
            assert(entries[3] == summary_doc(cs)->Object_0[3]);
            assert(entries[4] == summary_doc(cs)->Object_0[4]);
            assert(entries =~= summary_doc(cs)->Object_0);
            assert(summary@ == summary_doc(cs));
        }
        let ghost arrd = arr.deep_view();
        let ghost summary_model = summary@;
        let mut top: Vec<(String, Value)> = Vec::new();
        top.push(("diffs".to_owned(), Value::Array(arr)));
        top.push(("summary".to_owned(), summary));
        let doc = Value::Object(top);
        proof {
            let entries = doc@->Object_0;
            assert(crate::value::value_model(top@[0].1)->Array_0 =~= arrd);
            assert(crate::value::value_model(top@[0].1) == ValueModel::Array(
                cs.map_values(|c: ChangeModel| change_doc(c)),
            ));
            assert(crate::value::value_model(top@[1].1) == summary_model);
            assert(entries[0] == report_doc(cs)->Object_0[0]);
            assert(entries[1] == report_doc(cs)->Object_0[1]);
            assert(entries =~= report_doc(cs)->Object_0);
            assert(doc@ == report_doc(cs));
        }
        crate::codec::to_pretty_string(&doc)
    }
}

impl Default for DiffFormatter {
    /// The default formatter: a two-space indent, values shown.
    fn default() -> (r: Self)
        ensures
            r.spec_indent() == "  "@,
            r.shows_values(),
    {
        Self::new()
    }
}

} // verus!
