//! Rendering of the route reconciliation report: one row per declared
//! route, grouped into collapsible sections.

use vstd::prelude::*;

use crate::text::{
    chars_lt, chars_of, copy_str, decimal, decimal_string, escape, escaped, lemma_lex_asymmetric,
    lemma_lex_irreflexive, lemma_lex_total, lemma_lex_transitive, lex_lt, str_eq, string_of, trim_chars, trimmed,
};

verus! {

/// One route's reconciliation outcome as the table shows it.
pub struct RouteStatus {
    pub pass: bool,
    pub mark: &'static str,
    pub label: String,
}

/// The opening of a route group, up to its summary text.
pub open spec fn group_head(open: bool) -> Seq<char> {
    "\n<details class=\"route-group\""@ + (if open { " open"@ } else { ""@ })
        + "><summary><svg class=\"route-group-chevron\" width=\"11\" height=\"11\" viewBox=\"0 0 16 16\" fill=\"none\" aria-hidden=\"true\"><path d=\"M5 2.5 L11 8 L5 13.5\" stroke=\"currentColor\" stroke-width=\"1.6\" stroke-linecap=\"round\" stroke-linejoin=\"round\"/></svg>"@
}

/// The table header between a group's summary and its rows.
pub open spec fn group_table_head() -> Seq<char> {
    "</summary><div class=\"tablewrap\"><table><thead><tr><th>status</th><th>method</th><th>path</th><th>operation</th><th>handler</th></tr></thead><tbody>"@
}

/// A collapsible group: `{count} {label}` as its summary, `rows_html` as its
/// table body.
pub open spec fn spec_route_group(label: Seq<char>, count: nat, open: bool, rows_html: Seq<char>) -> Seq<char> {
    group_head(open) + decimal(count) + " "@ + label + group_table_head() + rows_html
        + "</tbody></table></div></details>\n"@
}

/// A collapsible group of route rows — problems open by default (that's
/// what a reader landed on the page to see), a fully-clean group collapsed
/// unless it's the only group on the page. `label` is the already-inflected
/// phrase for `count` ("1 problem" / "3 problems" / "N reconciled").
pub fn route_group(label: &str, count: usize, open: bool, rows_html: &str) -> (r: String)
    ensures
        r@ == spec_route_group(label@, count as nat, open, rows_html@),
{
    proof {
        reveal_strlit("\n<details class=\"route-group\"");
        reveal_strlit(" open");
        reveal_strlit("");
    }
    let mut out = copy_str("\n<details class=\"route-group\"");
    if open {
        out.append(" open");
    } else {
        out.append("");
    }
    out.append(
        "><summary><svg class=\"route-group-chevron\" width=\"11\" height=\"11\" viewBox=\"0 0 16 16\" fill=\"none\" aria-hidden=\"true\"><path d=\"M5 2.5 L11 8 L5 13.5\" stroke=\"currentColor\" stroke-width=\"1.6\" stroke-linecap=\"round\" stroke-linejoin=\"round\"/></svg>",
    );
    out.append(decimal_string(count as u64).as_str());
    out.append(" ");
    out.append(label);
    out.append(
        "</summary><div class=\"tablewrap\"><table><thead><tr><th>status</th><th>method</th><th>path</th><th>operation</th><th>handler</th></tr></thead><tbody>",
    );
    out.append(rows_html);
    out.append("</tbody></table></div></details>\n");
    out
}

/// The `title` attribute a handler's docs give its operation cell: none
/// when the docs are absent or blank, else the trimmed docs, escaped.
pub open spec fn title_attr(docs: Option<Seq<char>>) -> Seq<char> {
    match docs {
        Some(d) => if trimmed(d).len() > 0 {
            " title=\""@ + escaped(trimmed(d)) + "\""@
        } else {
            ""@
        },
        None => ""@,
    }
}

/// The inline measured fact after an operation, when there is one.
pub open spec fn measured_span(measured: Option<Seq<char>>) -> Seq<char> {
    match measured {
        Some(m) => " <span class=\"route-measured\">· "@ + escaped(m) + "</span>"@,
        None => ""@,
    }
}

/// An optional string slice as plain values.
pub open spec fn osv(o: Option<&str>) -> Option<Seq<char>> {
    match o {
        Some(s) => Some(s@),
        None => None,
    }
}

/// One `<tr>` of the route table: status, method, path (`—` when empty),
/// operation with its optional docs tooltip and measured fact, handler.
pub open spec fn spec_route_row(
    pass: bool,
    mark: Seq<char>,
    label: Seq<char>,
    method: Seq<char>,
    path: Seq<char>,
    operation: Seq<char>,
    handler_id: Seq<char>,
    docs: Option<Seq<char>>,
    measured: Option<Seq<char>>,
) -> Seq<char> {
    "<tr><td><span class=\"route-status "@ + (if pass {
        "route-status-pass"@
    } else {
        "route-status-fail"@
    }) + "\">"@ + mark + " "@ + escaped(label) + "</span></td><td><code>"@ + escaped(method)
        + "</code></td><td><code>"@ + escaped(if path.len() == 0 { "—"@ } else { path })
        + "</code></td><td"@ + title_attr(docs) + ">"@ + escaped(operation) + measured_span(measured)
        + "</td><td><code>"@ + escaped(handler_id) + "</code></td></tr>"@
}

/// One `<tr>` for the route table — dense enough that a hundred routes
/// still scan at a glance. `docs` (a hover tooltip) and `measured` (an
/// inline fact) are optional enrichment, not load-bearing columns.
pub fn route_row(
    status: &RouteStatus,
    method: &str,
    path: &str,
    operation: &str,
    handler_id: &str,
    docs: Option<&str>,
    measured: Option<&str>,
) -> (r: String)
    ensures
        r@ == spec_route_row(
            status.pass,
            status.mark@,
            status.label@,
            method@,
            path@,
            operation@,
            handler_id@,
            osv(docs),
            osv(measured),
        ),
{
    proof {
        reveal_strlit("route-status-pass");
        reveal_strlit("route-status-fail");
        reveal_strlit("—");
        reveal_strlit("");
    }
    let mut out = copy_str("<tr><td><span class=\"route-status ");
    if status.pass {
        out.append("route-status-pass");
    } else {
        out.append("route-status-fail");
    }
    out.append("\">");
    out.append(status.mark);
    out.append(" ");
    out.append(escape(status.label.as_str()).as_str());
    out.append("</span></td><td><code>");
    out.append(escape(method).as_str());
    out.append("</code></td><td><code>");
    let p = chars_of(path);
    if p.len() == 0 {
        out.append(escape("—").as_str());
    } else {
        out.append(escape(path).as_str());
    }
    out.append("</code></td><td");
    match docs {
        Some(d) => {
            let t = trim_chars(&chars_of(d));
            if t.len() > 0 {
                out.append(" title=\"");
                let ts = string_of(t.as_slice());
                out.append(escape(ts.as_str()).as_str());
                out.append("\"");
            } else {
                out.append("");
            }
        },
        None => {
            out.append("");
        },
    }
    out.append(">");
    out.append(escape(operation).as_str());
    match measured {
        Some(m) => {
            out.append(" <span class=\"route-measured\">· ");
            out.append(escape(m).as_str());
            out.append("</span>");
        },
        None => {
            out.append("");
        },
    }
    out.append("</td><td><code>");
    out.append(escape(handler_id).as_str());
    out.append("</code></td></tr>");
    out
}

/// The reason recorded for the first mismatch of handler `id`'s
/// `operation`, from index `i` on.
pub open spec fn first_mismatch(
    mismatched: Seq<(Seq<char>, Seq<char>, Seq<char>)>,
    id: Seq<char>,
    operation: Seq<char>,
    i: int,
) -> Option<Seq<char>>
    decreases mismatched.len() - i,
{
    if i < 0 || i >= mismatched.len() {
        None
    } else if mismatched[i].0 == id && mismatched[i].1 == operation {
        Some(mismatched[i].2)
    } else {
        first_mismatch(mismatched, id, operation, i + 1)
    }
}

/// A route's reconciliation verdict as (pass, mark, label): a mismatch
/// (with what differs) before a missing spec entry, else reconciled.
pub open spec fn spec_route_status(
    mismatched: Seq<(Seq<char>, Seq<char>, Seq<char>)>,
    missing_spec: Seq<(Seq<char>, Seq<char>)>,
    id: Seq<char>,
    operation: Seq<char>,
) -> (bool, Seq<char>, Seq<char>) {
    match first_mismatch(mismatched, id, operation, 0) {
        Some(what) => (false, "✗"@, "mismatch: "@ + what),
        None => if missing_spec.contains((id, operation)) {
            (false, "✗"@, "not in the spec"@)
        } else {
            (true, "✓"@, "reconciled"@)
        },
    }
}

/// The verdict of the route with handler `id` and `operation`, from the
/// reconciliation's mismatches (handler id, operation, what differs) and
/// the routes missing from the spec (handler id, operation).
pub fn route_status(
    mismatched: &Vec<(String, String, String)>,
    missing_spec: &Vec<(String, String)>,
    id: &str,
    operation: &str,
) -> (r: RouteStatus)
    ensures
        (r.pass, r.mark@, r.label@) == spec_route_status(
            mismatched@.map_values(|t: (String, String, String)| (t.0@, t.1@, t.2@)),
            missing_spec@.map_values(|t: (String, String)| (t.0@, t.1@)),
            id@,
            operation@,
        ),
{
    let ghost ms = mismatched@.map_values(|t: (String, String, String)| (t.0@, t.1@, t.2@));
    let ghost miss = missing_spec@.map_values(|t: (String, String)| (t.0@, t.1@));
    let mut i: usize = 0;
    while i < mismatched.len()
        invariant
            ms == mismatched@.map_values(|t: (String, String, String)| (t.0@, t.1@, t.2@)),
            i <= mismatched@.len(),
            first_mismatch(ms, id@, operation@, i as int) == first_mismatch(ms, id@, operation@, 0),
        decreases mismatched.len() - i,
    {
        assert(ms[i as int] == (mismatched@[i as int].0@, mismatched@[i as int].1@, mismatched@[i as int].2@));
        if crate::text::str_eq(mismatched[i].0.as_str(), id) && crate::text::str_eq(
            mismatched[i].1.as_str(),
            operation,
        ) {
            let mut label = copy_str("mismatch: ");
            label.append(mismatched[i].2.as_str());
            proof {
                reveal_strlit("mismatch: ");
            }
            return RouteStatus { pass: false, mark: "✗", label };
        }
        i = i + 1;
    }
    let mut j: usize = 0;
    while j < missing_spec.len()
        invariant
            miss == missing_spec@.map_values(|t: (String, String)| (t.0@, t.1@)),
            ms == mismatched@.map_values(|t: (String, String, String)| (t.0@, t.1@, t.2@)),
            first_mismatch(ms, id@, operation@, 0) is None,
            j <= missing_spec@.len(),
            forall|q: int| 0 <= q < j ==> miss[q] != (id@, operation@),
        decreases missing_spec.len() - j,
    {
        assert(miss[j as int] == (missing_spec@[j as int].0@, missing_spec@[j as int].1@));
        if crate::text::str_eq(missing_spec[j].0.as_str(), id) && crate::text::str_eq(
            missing_spec[j].1.as_str(),
            operation,
        ) {
            assert(miss.contains((id@, operation@)));
            return RouteStatus { pass: false, mark: "✗", label: copy_str("not in the spec") };
        }
        j = j + 1;
    }
    assert(!miss.contains((id@, operation@)));
    RouteStatus { pass: true, mark: "✓", label: copy_str("reconciled") }
}

/// The rows of `rows` whose verdict is `pass`, joined in order.
pub open spec fn rows_where(rows: Seq<(bool, Seq<char>)>, pass: bool) -> Seq<char>
    decreases rows.len(),
{
    if rows.len() == 0 {
        Seq::empty()
    } else {
        rows_where(rows.drop_last(), pass) + if rows.last().0 == pass {
            rows.last().1
        } else {
            Seq::empty()
        }
    }
}

/// How many of `rows` have verdict `pass`.
pub open spec fn count_where(rows: Seq<(bool, Seq<char>)>, pass: bool) -> nat
    decreases rows.len(),
{
    if rows.len() == 0 {
        0
    } else {
        count_where(rows.drop_last(), pass) + if rows.last().0 == pass {
            1nat
        } else {
            0nat
        }
    }
}

/// One spec file's route table: the problem rows (failing routes, then a
/// row per operation with no handler) in a group open by default, and the
/// reconciled rows in a group collapsed unless it is the only one.
pub open spec fn spec_routes_table(rows: Seq<(bool, Seq<char>)>, missing: Seq<(bool, Seq<char>)>) -> Seq<char> {
    let problems = rows_where(rows, false) + rows_where(missing, false);
    let np = count_where(rows, false) + count_where(missing, false);
    let ok = rows_where(rows, true);
    let nok = count_where(rows, true);
    (if np > 0 {
        spec_route_group(if np == 1 { "problem"@ } else { "problems"@ }, np, true, problems)
    } else {
        Seq::empty()
    }) + (if nok > 0 {
        spec_route_group("reconciled"@, nok, np == 0, ok)
    } else {
        Seq::empty()
    })
}

fn gather_rows(rows: &Vec<(bool, String)>, pass: bool) -> (r: (String, usize))
    ensures
        r.0@ == rows_where(rows@.map_values(|t: (bool, String)| (t.0, t.1@)), pass),
        r.1 == count_where(rows@.map_values(|t: (bool, String)| (t.0, t.1@)), pass),
        r.1 <= rows@.len(),
{
    let ghost rs = rows@.map_values(|t: (bool, String)| (t.0, t.1@));
    let mut out = String::new();
    let mut n: usize = 0;
    let mut i: usize = 0;
    while i < rows.len()
        invariant
            rs == rows@.map_values(|t: (bool, String)| (t.0, t.1@)),
            i <= rows@.len(),
            out@ == rows_where(rs.take(i as int), pass),
            n == count_where(rs.take(i as int), pass),
            n <= i,
        decreases rows.len() - i,
    {
        let ghost t = rs.take(i as int + 1);
        assert(t.drop_last() =~= rs.take(i as int));
        assert(t.last() == (rows@[i as int].0, rows@[i as int].1@));
        if rows[i].0 == pass {
            out.append(rows[i].1.as_str());
            n = n + 1;
        } else {
            assert(out@ =~= out@ + Seq::<char>::empty());
        }
        i = i + 1;
    }
    assert(rs.take(rows@.len() as int) =~= rs);
    (out, n)
}

/// See [`spec_routes_table`]; each row comes with its verdict, and every
/// `missing` row (an operation with no handler) is a failing one.
pub fn routes_table(rows: &Vec<(bool, String)>, missing: &Vec<(bool, String)>) -> (r: String)
    requires
        rows@.len() + missing@.len() <= usize::MAX,
    ensures
        r@ == spec_routes_table(
            rows@.map_values(|t: (bool, String)| (t.0, t.1@)),
            missing@.map_values(|t: (bool, String)| (t.0, t.1@)),
        ),
{
    let (mut problems, n1) = gather_rows(rows, false);
    let (missing_html, n2) = gather_rows(missing, false);
    problems.append(missing_html.as_str());
    let np = n1 + n2;
    let (ok, nok) = gather_rows(rows, true);
    let mut out = String::new();
    proof {
        reveal_strlit("problem");
        reveal_strlit("problems");
    }
    if np > 0 {
        let word = if np == 1 { "problem" } else { "problems" };
        let g = route_group(word, np, true, problems.as_str());
        out.append(g.as_str());
    }
    let ghost first = out@;
    if nok > 0 {
        let g = route_group("reconciled", nok, np == 0, ok.as_str());
        out.append(g.as_str());
    } else {
        assert(out@ =~= first + Seq::<char>::empty());
    }
    if np == 0 {
        assert(out@ =~= Seq::<char>::empty() + out@);
    }
    out
}

// ---------------------------------------------------------------- sorted rows

/// One `#[route]` registration: its handler id, operation, method, path.
pub struct RouteDecl {
    pub id: String,
    pub operation: String,
    pub method: String,
    pub path: String,
}

/// An operation the spec declares that no handler implements.
pub struct DeclaredOp {
    pub operation: String,
    pub method: String,
    pub path: String,
}

/// A registration as plain values: (id, operation, method, path).
pub open spec fn route_view(r: RouteDecl) -> (Seq<char>, Seq<char>, Seq<char>, Seq<char>) {
    (r.id@, r.operation@, r.method@, r.path@)
}

/// Whether `a` sorts before `b`: by path, then by method.
pub open spec fn route_before(a: (Seq<char>, Seq<char>, Seq<char>, Seq<char>), b: (Seq<char>, Seq<char>, Seq<char>, Seq<char>)) -> bool {
    lex_lt(a.3, b.3) || (a.3 == b.3 && lex_lt(a.2, b.2))
}

/// `s` with `x` inserted after every element that does not sort after it.
pub open spec fn route_insert(
    s: Seq<(Seq<char>, Seq<char>, Seq<char>, Seq<char>)>,
    x: (Seq<char>, Seq<char>, Seq<char>, Seq<char>),
) -> Seq<(Seq<char>, Seq<char>, Seq<char>, Seq<char>)>
    decreases s.len(),
{
    if s.len() == 0 {
        seq![x]
    } else if route_before(x, s.last()) {
        route_insert(s.drop_last(), x).push(s.last())
    } else {
        s.push(x)
    }
}

/// Registrations in (path, method) order, ties kept in registration order:
/// what a stable sort by that key gives.
pub open spec fn routes_sorted(rs: Seq<(Seq<char>, Seq<char>, Seq<char>, Seq<char>)>) -> Seq<
    (Seq<char>, Seq<char>, Seq<char>, Seq<char>),
>
    decreases rs.len(),
{
    if rs.len() == 0 {
        Seq::empty()
    } else {
        route_insert(routes_sorted(rs.drop_last()), rs.last())
    }
}

/// The value stored under `k` in an id-keyed list, the first if several.
pub open spec fn lookup(m: Seq<(Seq<char>, Seq<char>)>, k: Seq<char>) -> Option<Seq<char>>
    decreases m.len(),
{
    if m.len() == 0 {
        None
    } else if m[0].0 == k {
        Some(m[0].1)
    } else {
        lookup(m.drop_first(), k)
    }
}

/// The table row of one registration, with its verdict.
pub open spec fn route_line(
    r: (Seq<char>, Seq<char>, Seq<char>, Seq<char>),
    mismatched: Seq<(Seq<char>, Seq<char>, Seq<char>)>,
    missing_spec: Seq<(Seq<char>, Seq<char>)>,
    docs: Seq<(Seq<char>, Seq<char>)>,
    measured: Seq<(Seq<char>, Seq<char>)>,
) -> (bool, Seq<char>) {
    let st = spec_route_status(mismatched, missing_spec, r.0, r.1);
    (st.0, spec_route_row(st.0, st.1, st.2, r.2, r.3, r.1, r.0, lookup(docs, r.0), lookup(measured, r.0)))
}

/// The rows of the registrations, in (path, method) order.
pub open spec fn route_lines(
    rs: Seq<(Seq<char>, Seq<char>, Seq<char>, Seq<char>)>,
    mismatched: Seq<(Seq<char>, Seq<char>, Seq<char>)>,
    missing_spec: Seq<(Seq<char>, Seq<char>)>,
    docs: Seq<(Seq<char>, Seq<char>)>,
    measured: Seq<(Seq<char>, Seq<char>)>,
) -> Seq<(bool, Seq<char>)> {
    routes_sorted(rs).map_values(
        |r: (Seq<char>, Seq<char>, Seq<char>, Seq<char>)| route_line(r, mismatched, missing_spec, docs, measured),
    )
}

pub open spec fn pairs(v: Seq<(String, String)>) -> Seq<(Seq<char>, Seq<char>)> {
    v.map_values(|t: (String, String)| (t.0@, t.1@))
}

pub open spec fn triples(v: Seq<(String, String, String)>) -> Seq<(Seq<char>, Seq<char>, Seq<char>)> {
    v.map_values(|t: (String, String, String)| (t.0@, t.1@, t.2@))
}

pub open spec fn row_views(v: Seq<(bool, String)>) -> Seq<(bool, Seq<char>)> {
    v.map_values(|t: (bool, String)| (t.0, t.1@))
}

fn route_before_exec(a: &RouteDecl, b: &RouteDecl) -> (r: bool)
    ensures
        r == route_before(route_view(*a), route_view(*b)),
{
    let ap = chars_of(a.path.as_str());
    let bp = chars_of(b.path.as_str());
    if chars_lt(&ap, &bp) {
        return true;
    }
    str_eq(a.path.as_str(), b.path.as_str()) && chars_lt(&chars_of(a.method.as_str()), &chars_of(b.method.as_str()))
}

proof fn lemma_route_insert_at(
    s: Seq<(Seq<char>, Seq<char>, Seq<char>, Seq<char>)>,
    x: (Seq<char>, Seq<char>, Seq<char>, Seq<char>),
    j: int,
)
    requires
        0 <= j <= s.len(),
        forall|k: int| j <= k < s.len() ==> route_before(x, #[trigger] s[k]),
        j > 0 ==> !route_before(x, s[j - 1]),
    ensures
        route_insert(s, x) == s.take(j).push(x) + s.skip(j),
    decreases s.len(),
{
    if s.len() == 0 {
        assert(s.take(0).push(x) + s.skip(0) =~= seq![x]);
    } else if j == s.len() {
        assert(s.take(j) =~= s);
        assert(s.take(j).push(x) + s.skip(j) =~= s.push(x));
    } else {
        let prev = s.drop_last();
        assert(route_before(x, s[s.len() - 1]));
        assert forall|k: int| j <= k < prev.len() implies route_before(x, #[trigger] prev[k]) by {
            assert(prev[k] == s[k]);
        }
        if j > 0 {
            assert(prev[j - 1] == s[j - 1]);
        }
        lemma_route_insert_at(prev, x, j);
        assert(route_insert(prev, x).push(s.last()) =~= s.take(j).push(x) + s.skip(j));
    }
}

/// The order `routes` sort in, as indices; see [`routes_sorted`].
fn sorted_order(routes: &Vec<RouteDecl>) -> (order: Vec<usize>)
    ensures
        forall|k: int| 0 <= k < order@.len() ==> #[trigger] order@[k] < routes@.len(),
        order@.map_values(|i: usize| route_view(routes@[i as int])) == routes_sorted(
            routes@.map_values(|r: RouteDecl| route_view(r)),
        ),
{
    let ghost rv = routes@.map_values(|r: RouteDecl| route_view(r));
    let mut order: Vec<usize> = Vec::new();
    let mut n: usize = 0;
    assert(rv.take(0) =~= Seq::<(Seq<char>, Seq<char>, Seq<char>, Seq<char>)>::empty());
    assert(order@.map_values(|i: usize| route_view(routes@[i as int])) =~= Seq::<
        (Seq<char>, Seq<char>, Seq<char>, Seq<char>),
    >::empty());
    while n < routes.len()
        invariant
            n <= routes@.len(),
            rv == routes@.map_values(|r: RouteDecl| route_view(r)),
            forall|k: int| 0 <= k < order@.len() ==> #[trigger] order@[k] < routes@.len(),
            order@.map_values(|i: usize| route_view(routes@[i as int])) == routes_sorted(rv.take(n as int)),
        decreases routes.len() - n,
    {
        let ghost ov = order@.map_values(|i: usize| route_view(routes@[i as int]));
        let ghost x = rv[n as int];
        assert(rv.take(n + 1).drop_last() =~= rv.take(n as int));
        assert(rv.take(n + 1).last() == x);
        let mut j: usize = order.len();
        while j > 0 && route_before_exec(&routes[n], &routes[order[j - 1]])
            invariant
                j <= order@.len(),
                n < routes@.len(),
                x == route_view(routes@[n as int]),
                ov == order@.map_values(|i: usize| route_view(routes@[i as int])),
                forall|k: int| 0 <= k < order@.len() ==> #[trigger] order@[k] < routes@.len(),
                forall|k: int| j <= k < ov.len() ==> route_before(x, #[trigger] ov[k]),
            decreases j,
        {
            assert(ov[j - 1] == route_view(routes@[order@[j - 1] as int]));
            j = j - 1;
        }
        if j > 0 {
            assert(ov[j - 1] == route_view(routes@[order@[j - 1] as int]));
        }
        proof {
            lemma_route_insert_at(ov, x, j as int);
        }
        let ghost before = order@;
        order.insert(j, n);
        assert(order@.map_values(|i: usize| route_view(routes@[i as int])) =~= ov.take(j as int).push(x) + ov.skip(
            j as int,
        ));
        n = n + 1;
    }
    assert(rv.take(routes@.len() as int) =~= rv);
    order
}

fn lookup_exec<'a>(m: &'a Vec<(String, String)>, k: &str) -> (r: Option<&'a str>)
    ensures
        osv(r) == lookup(pairs(m@), k@),
{
    let ghost pv = pairs(m@);
    assert(pv.skip(0) =~= pv);
    let mut i: usize = 0;
    while i < m.len()
        invariant
            i <= m@.len(),
            pv == pairs(m@),
            lookup(pv.skip(i as int), k@) == lookup(pv, k@),
        decreases m.len() - i,
    {
        assert(pv.skip(i as int)[0] == (m@[i as int].0@, m@[i as int].1@));
        assert(pv.skip(i as int).drop_first() =~= pv.skip(i + 1));
        if str_eq(m[i].0.as_str(), k) {
            return Some(m[i].1.as_str());
        }
        i = i + 1;
    }
    assert(pv.skip(m@.len() as int) =~= Seq::<(Seq<char>, Seq<char>)>::empty());
    None
}

/// One row per registration, in (path, method) order, each with its
/// verdict; `docs` and `measured` hold each handler's doc comment and
/// measured facts, by handler id. See [`route_lines`].
pub fn route_rows(
    routes: &Vec<RouteDecl>,
    mismatched: &Vec<(String, String, String)>,
    missing_spec: &Vec<(String, String)>,
    docs: &Vec<(String, String)>,
    measured: &Vec<(String, String)>,
) -> (r: Vec<(bool, String)>)
    ensures
        row_views(r@) == route_lines(
            routes@.map_values(|x: RouteDecl| route_view(x)),
            triples(mismatched@),
            pairs(missing_spec@),
            pairs(docs@),
            pairs(measured@),
        ),
{
    let order = sorted_order(routes);
    let ghost sorted = order@.map_values(|i: usize| route_view(routes@[i as int]));
    let ghost ms = triples(mismatched@);
    let ghost miss = pairs(missing_spec@);
    let ghost dv = pairs(docs@);
    let ghost mv = pairs(measured@);
    assert(ms =~= mismatched@.map_values(|t: (String, String, String)| (t.0@, t.1@, t.2@)));
    assert(miss =~= missing_spec@.map_values(|t: (String, String)| (t.0@, t.1@)));
    let mut out: Vec<(bool, String)> = Vec::new();
    let mut k: usize = 0;
    while k < order.len()
        invariant
            k <= order@.len(),
            forall|q: int| 0 <= q < order@.len() ==> #[trigger] order@[q] < routes@.len(),
            sorted == order@.map_values(|i: usize| route_view(routes@[i as int])),
            ms == triples(mismatched@),
            ms == mismatched@.map_values(|t: (String, String, String)| (t.0@, t.1@, t.2@)),
            miss == missing_spec@.map_values(|t: (String, String)| (t.0@, t.1@)),
            miss == pairs(missing_spec@),
            dv == pairs(docs@),
            mv == pairs(measured@),
            row_views(out@) == sorted.take(k as int).map_values(
                |r: (Seq<char>, Seq<char>, Seq<char>, Seq<char>)| route_line(r, ms, miss, dv, mv),
            ),
        decreases order.len() - k,
    {
        let r = &routes[order[k]];
        assert(sorted[k as int] == route_view(*r));
        let st = route_status(mismatched, missing_spec, r.id.as_str(), r.operation.as_str());
        let row = route_row(
            &st,
            r.method.as_str(),
            r.path.as_str(),
            r.operation.as_str(),
            r.id.as_str(),
            lookup_exec(docs, r.id.as_str()),
            lookup_exec(measured, r.id.as_str()),
        );
        let ghost before = out@;
        out.push((st.pass, row));
        assert(row_views(out@) =~= row_views(before).push((st.pass, row@)));
        assert(sorted.take(k + 1).map_values(
            |r: (Seq<char>, Seq<char>, Seq<char>, Seq<char>)| route_line(r, ms, miss, dv, mv),
        ) =~= sorted.take(k as int).map_values(
            |r: (Seq<char>, Seq<char>, Seq<char>, Seq<char>)| route_line(r, ms, miss, dv, mv),
        ).push(route_line(sorted[k as int], ms, miss, dv, mv)));
        k = k + 1;
    }
    assert(sorted.take(order@.len() as int) =~= sorted);
    out
}

/// The row of a declared operation no handler implements: failing,
/// `✗ missing handler`, handler `—`.
pub open spec fn missing_line(op: DeclaredOp) -> (bool, Seq<char>) {
    (false, spec_route_row(false, "✗"@, "missing handler"@, op.method@, op.path@, op.operation@, "—"@, None, None))
}

/// See [`missing_line`]; one row per operation, in order.
pub fn missing_handler_rows(ops: &Vec<DeclaredOp>) -> (r: Vec<(bool, String)>)
    ensures
        row_views(r@) == ops@.map_values(|o: DeclaredOp| missing_line(o)),
{
    let mut out: Vec<(bool, String)> = Vec::new();
    let mut k: usize = 0;
    while k < ops.len()
        invariant
            k <= ops@.len(),
            row_views(out@) == ops@.take(k as int).map_values(|o: DeclaredOp| missing_line(o)),
        decreases ops.len() - k,
    {
        let op = &ops[k];
        let st = RouteStatus { pass: false, mark: "✗", label: copy_str("missing handler") };
        let row = route_row(&st, op.method.as_str(), op.path.as_str(), op.operation.as_str(), "—", None, None);
        let ghost before = out@;
        out.push((false, row));
        assert(row_views(out@) =~= row_views(before).push((false, row@)));
        assert(ops@.take(k + 1).map_values(|o: DeclaredOp| missing_line(o)) =~= ops@.take(k as int).map_values(
            |o: DeclaredOp| missing_line(o),
        ).push(missing_line(ops@[k as int])));
        k = k + 1;
    }
    assert(ops@.take(ops@.len() as int) =~= ops@);
    out
}

// ---------------------------------------------------------------- the order is a sort

/// No element sorts before one ahead of it.
pub open spec fn in_route_order(s: Seq<(Seq<char>, Seq<char>, Seq<char>, Seq<char>)>) -> bool {
    forall|i: int, j: int| 0 <= i < j < s.len() ==> !route_before(s[j], s[i])
}

proof fn lemma_route_before_asymmetric(
    a: (Seq<char>, Seq<char>, Seq<char>, Seq<char>),
    b: (Seq<char>, Seq<char>, Seq<char>, Seq<char>),
)
    ensures
        !(route_before(a, b) && route_before(b, a)),
{
    lemma_lex_asymmetric(a.3, b.3);
    lemma_lex_asymmetric(a.2, b.2);
    lemma_lex_irreflexive(a.3);
}

proof fn lemma_route_before_cotransitive(
    a: (Seq<char>, Seq<char>, Seq<char>, Seq<char>),
    b: (Seq<char>, Seq<char>, Seq<char>, Seq<char>),
    c: (Seq<char>, Seq<char>, Seq<char>, Seq<char>),
)
    requires
        route_before(a, c),
    ensures
        route_before(a, b) || route_before(b, c),
{
    lemma_lex_total(a.3, b.3);
    if lex_lt(a.3, c.3) {
        if lex_lt(b.3, a.3) {
            lemma_lex_transitive(b.3, a.3, c.3);
        }
    } else {
        if a.3 == b.3 {
            lemma_lex_total(a.2, b.2);
            if lex_lt(b.2, a.2) {
                lemma_lex_transitive(b.2, a.2, c.2);
            }
        }
    }
}

proof fn lemma_route_insert_sorted(
    s: Seq<(Seq<char>, Seq<char>, Seq<char>, Seq<char>)>,
    x: (Seq<char>, Seq<char>, Seq<char>, Seq<char>),
)
    requires
        in_route_order(s),
    ensures
        in_route_order(route_insert(s, x)),
        route_insert(s, x).to_multiset() == s.to_multiset().insert(x),
    decreases s.len(),
{
    broadcast use vstd::seq_lib::group_to_multiset_ensures;

    if s.len() == 0 {
        assert(route_insert(s, x) =~= s.push(x));
    } else {
        let prev = s.drop_last();
        let l = s.last();
        assert(s =~= prev.push(l));
        if route_before(x, l) {
            assert forall|i: int, j: int| 0 <= i < j < prev.len() implies !route_before(prev[j], prev[i]) by {
                assert(prev[i] == s[i] && prev[j] == s[j]);
            }
            lemma_route_insert_sorted(prev, x);
            let r = route_insert(prev, x);
            assert(route_insert(s, x) == r.push(l));
            assert(r.push(l).to_multiset() =~= s.to_multiset().insert(x));
            assert forall|i: int, j: int| 0 <= i < j < r.push(l).len() implies !route_before(
                r.push(l)[j],
                r.push(l)[i],
            ) by {
                if j < r.len() {
                    assert(r.push(l)[j] == r[j] && r.push(l)[i] == r[i]);
                } else {
                    let y = r[i];
                    assert(r.push(l)[i] == y);
                    assert(r.contains(y));
                    assert(r.to_multiset().count(y) > 0);
                    if y == x {
                        lemma_route_before_asymmetric(x, l);
                    } else {
                        assert(prev.to_multiset().count(y) > 0);
                        assert(prev.contains(y));
                        let k = choose|k: int| 0 <= k < prev.len() && prev[k] == y;
                        assert(s[k] == y && s[s.len() - 1] == l);
                    }
                }
            }
        } else {
            assert(route_insert(s, x) == s.push(x));
            assert forall|i: int, j: int| 0 <= i < j < s.push(x).len() implies !route_before(
                s.push(x)[j],
                s.push(x)[i],
            ) by {
                if j < s.len() {
                    assert(s.push(x)[j] == s[j] && s.push(x)[i] == s[i]);
                } else {
                    assert(s.push(x)[i] == s[i]);
                    if route_before(x, s[i]) {
                        lemma_route_before_cotransitive(x, l, s[i]);
                        if i < s.len() - 1 {
                            assert(!route_before(s[s.len() - 1], s[i]));
                        }
                    }
                }
            }
        }
    }
}

/// The route table lists every registration exactly once, sorted by path
/// and then by method: its order is sorted and holds the same
/// registrations, as many times each.
pub proof fn law_routes_sorted_is_a_sort(rs: Seq<(Seq<char>, Seq<char>, Seq<char>, Seq<char>)>)
    ensures
        in_route_order(routes_sorted(rs)),
        routes_sorted(rs).to_multiset() == rs.to_multiset(),
    decreases rs.len(),
{
    broadcast use vstd::seq_lib::group_to_multiset_ensures;

    if rs.len() == 0 {
        assert(routes_sorted(rs) =~= rs);
    } else {
        law_routes_sorted_is_a_sort(rs.drop_last());
        lemma_route_insert_sorted(routes_sorted(rs.drop_last()), rs.last());
        assert(rs =~= rs.drop_last().push(rs.last()));
    }
}

} // verus!
