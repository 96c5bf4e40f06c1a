//! Parsers for the output of Proxmox `qm list` and `qm status`.

use vstd::prelude::*;

use crate::text::{
    line_block, lemma_lines_block,
    is_ws, lemma_trim_unchanged, lemma_two_lines, lemma_words_spaced, spaced, strip_cr,
    lemma_absent_char, contains, contains_str, lines, split_lines, split_ws, str_eq, strip_prefix_str, strip_suffix_str,
    trim, trim_str, views, words,
};

verus! {

/// The VM states `qm` reports: `running`, `stopped`, `paused`, `suspended`, `prelaunch`.
pub open spec fn is_known_status(s: Seq<char>) -> bool {
    ||| s == "running"@
    ||| s == "stopped"@
    ||| s == "paused"@
    ||| s == "suspended"@
    ||| s == "prelaunch"@
}

/// Whether `s` is one of the VM states `qm` reports.
pub fn status_known(s: &str) -> (r: bool)
    ensures
        r == is_known_status(s@),
{
    str_eq(s, "running") || str_eq(s, "stopped") || str_eq(s, "paused") || str_eq(s, "suspended")
        || str_eq(s, "prelaunch")
}

/// One data row of `qm list`.
#[derive(Debug, Clone, PartialEq, Eq)]
pub struct VmRow {
    pub vmid: String,
    pub name: String,
    pub status: String,
    pub mem_mb: String,
    pub disk_gb: String,
    /// `None` when the PID column is missing or reads `0`.
    pub pid: Option<String>,
}

/// The value of a [`VmRow`].
pub struct VmRowView {
    pub vmid: Seq<char>,
    pub name: Seq<char>,
    pub status: Seq<char>,
    pub mem_mb: Seq<char>,
    pub disk_gb: Seq<char>,
    pub pid: Option<Seq<char>>,
}

impl View for VmRow {
    type V = VmRowView;

    open spec fn view(&self) -> VmRowView {
        VmRowView {
            vmid: self.vmid@,
            name: self.name@,
            status: self.status@,
            mem_mb: self.mem_mb@,
            disk_gb: self.disk_gb@,
            pid: match self.pid {
                Some(p) => Some(p@),
                None => None,
            },
        }
    }
}

/// Why `qm list` output was rejected.
#[derive(Debug, Clone, PartialEq, Eq)]
pub enum QmListError {
    /// A data line had neither 5 nor 6 columns.
    ColumnCount { columns: usize, line: String },
    /// A row's status is not one of the known VM states.
    UnknownStatus { status: String },
}

/// The value of a [`QmListError`].
pub enum QmListFailure {
    ColumnCount { columns: nat, line: Seq<char> },
    UnknownStatus { status: Seq<char> },
}

impl View for QmListError {
    type V = QmListFailure;

    open spec fn view(&self) -> QmListFailure {
        match self {
            QmListError::ColumnCount { columns, line } => QmListFailure::ColumnCount {
                columns: *columns as nat,
                line: line@,
            },
            QmListError::UnknownStatus { status } => QmListFailure::UnknownStatus {
                status: status@,
            },
        }
    }
}

/// What a single data line of `qm list` contributes.
pub enum LineOutcome {
    Blank,
    Row(VmRowView),
    Fail(QmListFailure),
}

/// The row the columns `p` (5 or 6 of them) describe; a PID of `0` counts as none.
pub open spec fn row_of_columns(p: Seq<Seq<char>>) -> VmRowView {
    VmRowView {
        vmid: p[0],
        name: p[1],
        status: p[2],
        mem_mb: p[3],
        disk_gb: p[4],
        pid: if p.len() == 6 && p[5] != "0"@ {
            Some(p[5])
        } else {
            None
        },
    }
}

/// A data line of `qm list`: blank lines are skipped, otherwise 5 or 6 columns and a
/// known status are required.
pub open spec fn line_outcome(line: Seq<char>) -> LineOutcome {
    if trim(line).len() == 0 {
        LineOutcome::Blank
    } else {
        let p = words(line);
        if p.len() == 5 || p.len() == 6 {
            let row = row_of_columns(p);
            if is_known_status(row.status) {
                LineOutcome::Row(row)
            } else {
                LineOutcome::Fail(QmListFailure::UnknownStatus { status: row.status })
            }
        } else {
            LineOutcome::Fail(QmListFailure::ColumnCount { columns: p.len(), line })
        }
    }
}

/// The rows of the data lines `ls`, or the failure of the first line that fails.
pub open spec fn qm_rows(ls: Seq<Seq<char>>) -> Result<Seq<VmRowView>, QmListFailure>
    decreases ls.len(),
{
    if ls.len() == 0 {
        Ok(seq![])
    } else {
        match qm_rows(ls.drop_last()) {
            Err(e) => Err(e),
            Ok(rs) => match line_outcome(ls.last()) {
                LineOutcome::Blank => Ok(rs),
                LineOutcome::Row(r) => Ok(rs.push(r)),
                LineOutcome::Fail(e) => Err(e),
            },
        }
    }
}

/// The lines after the header line.
pub open spec fn data_lines(text: Seq<char>) -> Seq<Seq<char>> {
    let ls = lines(text);
    if ls.len() > 0 {
        ls.drop_first()
    } else {
        ls
    }
}

/// What `qm list` output `text` denotes: the rows of every line after the header.
pub open spec fn qm_list(text: Seq<char>) -> Result<Seq<VmRowView>, QmListFailure> {
    qm_rows(data_lines(text))
}

/// The views of a sequence of rows.
pub open spec fn row_views(rows: Seq<VmRow>) -> Seq<VmRowView> {
    rows.map_values(|r: VmRow| r@)
}

proof fn lemma_qm_rows_err_persists(ls: Seq<Seq<char>>, k: int)
    requires
        0 <= k <= ls.len(),
        qm_rows(ls.take(k)) is Err,
    ensures
        qm_rows(ls) == qm_rows(ls.take(k)),
    decreases ls.len() - k,
{
    if k < ls.len() {
        assert(ls.take(k + 1).drop_last() =~= ls.take(k));
        lemma_qm_rows_err_persists(ls, k + 1);
    } else {
        assert(ls.take(k) =~= ls);
    }
}

/// Parses one nonblank data line into a row.
fn parse_row(line: &str) -> (r: Result<VmRow, QmListError>)
    requires
        trim(line@).len() != 0,
    ensures
        match (r, line_outcome(line@)) {
            (Ok(row), LineOutcome::Row(v)) => row@ == v,
            (Err(e), LineOutcome::Fail(f)) => e@ == f,
            _ => false,
        },
{
    let p = split_ws(line);
    proof {
        assert(views(p@).len() == p@.len());
    }
    if p.len() != 5 && p.len() != 6 {
        return Err(QmListError::ColumnCount { columns: p.len(), line: String::from_str(line) });
    }
    let pid = if p.len() == 6 && !str_eq(p[5], "0") {
        Some(String::from_str(p[5]))
    } else {
        None
    };
    let row = VmRow {
        vmid: String::from_str(p[0]),
        name: String::from_str(p[1]),
        status: String::from_str(p[2]),
        mem_mb: String::from_str(p[3]),
        disk_gb: String::from_str(p[4]),
        pid,
    };
    proof {
        let w = words(line@);
        assert(w[0] == p@[0]@);
        assert(w[1] == p@[1]@);
        assert(w[2] == p@[2]@);
        assert(w[3] == p@[3]@);
        assert(w[4] == p@[4]@);
        if p@.len() == 6 {
            assert(w[5] == p@[5]@);
        }
        assert(row@ == row_of_columns(w));
    }
    if !status_known(row.status.as_str()) {
        return Err(QmListError::UnknownStatus { status: row.status });
    }
    Ok(row)
}

/// Parses `qm list` output: the header line is skipped, blank lines are skipped, and each
/// other line must have 5 columns (no PID) or 6 (a PID of `0` read as none) and a known
/// status.
pub fn parse_qm_list(text: &str) -> (r: Result<Vec<VmRow>, QmListError>)
    ensures
        match (r, qm_list(text@)) {
            (Ok(rows), Ok(v)) => row_views(rows@) == v,
            (Err(e), Err(f)) => e@ == f,
            _ => false,
        },
{
    let ls = split_lines(text);
    let ghost body = data_lines(text@);
    proof {
        assert(views(ls@).len() == ls@.len());
        if ls@.len() > 0 {
            assert forall|k: int| 0 <= k < body.len() implies body[k] == ls@[k + 1]@ by {
                assert(views(ls@)[k + 1] == ls@[k + 1]@);
            }
        }
    }
    let mut rows: Vec<VmRow> = Vec::new();
    if ls.len() == 0 {
        proof {
            assert(body.len() == 0);
        }
        return Ok(rows);
    }
    let mut i: usize = 1;
    proof {
        assert(body.take(0) =~= Seq::<Seq<char>>::empty());
        assert(row_views(rows@) =~= Seq::<VmRowView>::empty());
    }
    while i < ls.len()
        invariant
            1 <= i <= ls@.len(),
            body == data_lines(text@),
            body.len() == ls@.len() - 1,
            forall|k: int| 0 <= k < body.len() ==> body[k] == ls@[k + 1]@,
            qm_rows(body.take(i - 1)) == Ok::<Seq<VmRowView>, QmListFailure>(row_views(rows@)),
        decreases ls@.len() - i,
    {
        let line = ls[i];
        proof {
            assert(body.take(i as int).drop_last() =~= body.take(i - 1));
            assert(body.take(i as int).last() == line@);
        }
        let blank = trim_str(line).is_empty();
        if !blank {
            match parse_row(line) {
                Ok(row) => {
                    proof {
                        assert(row_views(rows@.push(row)) =~= row_views(rows@).push(row@));
                    }
                    rows.push(row);
                },
                Err(e) => {
                    proof {
                        assert(qm_rows(body.take(i as int)) == Err::<Seq<VmRowView>, QmListFailure>(
                            e@,
                        ));
                        lemma_qm_rows_err_persists(body, i as int);
                    }
                    return Err(e);
                },
            }
        }
        i = i + 1;
    }
    proof {
        assert(body.take(i - 1) =~= body);
    }
    Ok(rows)
}

/// Why `qm status` output was rejected.
#[derive(Debug, Clone, PartialEq, Eq)]
pub enum QmStatusError {
    /// More than one line of output.
    MultiLine,
    /// The line does not start with `status: `.
    MissingPrefix,
    /// The reported state is not one of the known VM states.
    UnknownValue { value: String },
}

/// The value of a [`QmStatusError`].
pub enum QmStatusFailure {
    MultiLine,
    MissingPrefix,
    UnknownValue { value: Seq<char> },
}

impl View for QmStatusError {
    type V = QmStatusFailure;

    open spec fn view(&self) -> QmStatusFailure {
        match self {
            QmStatusError::MultiLine => QmStatusFailure::MultiLine,
            QmStatusError::MissingPrefix => QmStatusFailure::MissingPrefix,
            QmStatusError::UnknownValue { value } => QmStatusFailure::UnknownValue {
                value: value@,
            },
        }
    }
}

/// `raw` without one trailing newline.
pub open spec fn without_final_newline(raw: Seq<char>) -> Seq<char> {
    if "\n"@.is_suffix_of(raw) {
        raw.subrange(0, raw.len() - "\n"@.len())
    } else {
        raw
    }
}

/// What `qm status` output `raw` denotes: exactly one line (the final newline optional)
/// reading `status: <state>` with a known state.
pub open spec fn qm_status(raw: Seq<char>) -> Result<Seq<char>, QmStatusFailure> {
    let body = without_final_newline(raw);
    if contains(body, "\n"@) {
        Err(QmStatusFailure::MultiLine)
    } else if !"status: "@.is_prefix_of(body) {
        Err(QmStatusFailure::MissingPrefix)
    } else {
        let value = body.subrange("status: "@.len() as int, body.len() as int);
        if is_known_status(value) {
            Ok(value)
        } else {
            Err(QmStatusFailure::UnknownValue { value })
        }
    }
}

/// Parses the raw output of `qm status <vmid>`, giving the state.
pub fn parse_qm_status(raw: &str) -> (r: Result<&str, QmStatusError>)
    ensures
        match (r, qm_status(raw@)) {
            (Ok(v), Ok(s)) => v@ == s,
            (Err(e), Err(f)) => e@ == f,
            _ => false,
        },
{
    let body = match strip_suffix_str(raw, "\n") {
        Some(b) => b,
        None => raw,
    };
    if contains_str(body, "\n") {
        return Err(QmStatusError::MultiLine);
    }
    let value = match strip_prefix_str(body, "status: ") {
        Some(v) => v,
        None => {
            return Err(QmStatusError::MissingPrefix);
        },
    };
    if !status_known(value) {
        return Err(QmStatusError::UnknownValue { value: String::from_str(value) });
    }
    Ok(value)
}


proof fn lemma_rows_invariant(ls: Seq<Seq<char>>)
    ensures
        qm_rows(ls) matches Ok(rows) ==> forall|i: int|
            0 <= i < rows.len() ==> is_known_status(#[trigger] rows[i].status) && rows[i].pid
                != Some("0"@),
    decreases ls.len(),
{
    if ls.len() > 0 {
        lemma_rows_invariant(ls.drop_last());
    }
}

/// Every row `qm list` parsing yields has a known status, and never a PID of `0`.
pub proof fn law_list_rows_known_status(text: Seq<char>)
    ensures
        qm_list(text) matches Ok(rows) ==> forall|i: int|
            0 <= i < rows.len() ==> is_known_status(#[trigger] rows[i].status) && rows[i].pid
                != Some("0"@),
{
    lemma_rows_invariant(data_lines(text));
}

/// `qm status` parsing accepts exactly the states `qm list` parsing accepts: whatever it
/// yields is a known status.
pub proof fn law_status_known(raw: Seq<char>)
    ensures
        qm_status(raw) matches Ok(v) ==> is_known_status(v),
{
}

/// The line `status: <state>` for a known state parses back to that state, with or
/// without its final newline.
pub proof fn law_status_line_roundtrip(s: Seq<char>)
    requires
        is_known_status(s),
    ensures
        qm_status("status: "@ + s + "\n"@) == Ok::<Seq<char>, QmStatusFailure>(s),
        qm_status("status: "@ + s) == Ok::<Seq<char>, QmStatusFailure>(s),
{
    reveal_strlit("\n");
    reveal_strlit("status: ");
    reveal_strlit("running");
    reveal_strlit("stopped");
    reveal_strlit("paused");
    reveal_strlit("suspended");
    reveal_strlit("prelaunch");
    let body = "status: "@ + s;
    assert(forall|k: int| 0 <= k < s.len() ==> s[k] != '\n');
    assert forall|k: int| 0 <= k < body.len() implies body[k] != '\n' by {
        if k >= 8 {
            assert(body[k] == s[k - 8]);
        }
    }
    lemma_absent_char(body, '\n');
    assert("\n"@ =~= seq!['\n']);
    let with_nl = body + "\n"@;
    assert(with_nl.subrange(0, with_nl.len() - 1) =~= body);
    assert(with_nl.subrange(with_nl.len() - 1, with_nl.len() as int) =~= "\n"@);
    assert(without_final_newline(with_nl) == body);
    assert(body.last() != '\n');
    assert(body.subrange(body.len() - 1, body.len() as int)[0] == body.last());
    assert(!"\n"@.is_suffix_of(body));
    assert(body.subrange(0, 8) =~= "status: "@);
    assert(body.subrange(8, body.len() as int) =~= s);
}

/// A nonblank data line of `qm list` that yields a row: 5 or 6 columns and a known status.
pub open spec fn line_parses(l: Seq<char>) -> bool {
    (words(l).len() == 5 || words(l).len() == 6) && is_known_status(words(l)[2])
}

/// The nonblank lines of `ls`, in order.
pub open spec fn nonblank_lines(ls: Seq<Seq<char>>) -> Seq<Seq<char>>
    decreases ls.len(),
{
    if ls.len() == 0 {
        seq![]
    } else if trim(ls.last()).len() > 0 {
        nonblank_lines(ls.drop_last()).push(ls.last())
    } else {
        nonblank_lines(ls.drop_last())
    }
}

/// The rows of the given lines, one per line.
pub open spec fn rows_of_lines(ls: Seq<Seq<char>>) -> Seq<VmRowView> {
    ls.map_values(|l: Seq<char>| row_of_columns(words(l)))
}

proof fn lemma_qm_rows_closed(ls: Seq<Seq<char>>)
    ensures
        (qm_rows(ls) is Ok) <==> (forall|i: int|
            0 <= i < nonblank_lines(ls).len() ==> line_parses(#[trigger] nonblank_lines(ls)[i])),
        qm_rows(ls) is Ok ==> qm_rows(ls) == Ok::<Seq<VmRowView>, QmListFailure>(
            rows_of_lines(nonblank_lines(ls)),
        ),
    decreases ls.len(),
{
    if ls.len() == 0 {
        assert(rows_of_lines(nonblank_lines(ls)) =~= Seq::<VmRowView>::empty());
    } else {
        let l0 = ls.drop_last();
        let l = ls.last();
        lemma_qm_rows_closed(l0);
        let nb0 = nonblank_lines(l0);
        if trim(l).len() > 0 {
            let nb = nb0.push(l);
            assert(nonblank_lines(ls) == nb);
            assert(rows_of_lines(nb) =~= rows_of_lines(nb0).push(row_of_columns(words(l))));
            assert(nb[nb0.len() as int] == l);
            assert forall|i: int| 0 <= i < nb0.len() implies nb[i] == nb0[i] by {}
            if qm_rows(l0) is Ok {
                if !line_parses(l) {
                    assert(!line_parses(nb[nb0.len() as int]));
                }
            } else {
                let k = choose|i: int| 0 <= i < nb0.len() && !line_parses(#[trigger] nb0[i]);
                assert(!line_parses(nb[k]));
            }
        } else {
            assert(nonblank_lines(ls) == nb0);
        }
    }
}

/// `qm list` output parses exactly when every nonblank line after the header has 5 or 6
/// columns and a known status; the rows are then those lines' columns, in order.
pub proof fn law_qm_list_closed(text: Seq<char>)
    ensures
        (qm_list(text) is Ok) <==> (forall|i: int|
            0 <= i < nonblank_lines(data_lines(text)).len() ==> line_parses(
                #[trigger] nonblank_lines(data_lines(text))[i],
            )),
        qm_list(text) is Ok ==> qm_list(text) == Ok::<Seq<VmRowView>, QmListFailure>(
            rows_of_lines(nonblank_lines(data_lines(text))),
        ),
{
    lemma_qm_rows_closed(data_lines(text));
}

/// The columns of a data line: nonempty and free of white space.
pub open spec fn plain_columns(cols: Seq<Seq<char>>) -> bool {
    &&& forall|k: int| 0 <= k < cols.len() ==> #[trigger] cols[k].len() > 0
    &&& forall|k: int, i: int|
        0 <= k < cols.len() && 0 <= i < cols[k].len() ==> !is_ws(#[trigger] cols[k][i])
}

proof fn lemma_single_data_line(header: Seq<char>, cols: Seq<Seq<char>>)
    requires
        forall|i: int| 0 <= i < header.len() ==> header[i] != '\n',
        cols.len() > 0,
        plain_columns(cols),
    ensures
        data_lines(header + "\n"@ + spaced(cols) + "\n"@) == seq![spaced(cols)],
        trim(spaced(cols)).len() > 0,
        words(spaced(cols)) == cols,
{
    lemma_words_spaced(cols);
    let l = spaced(cols);
    assert forall|i: int| 0 <= i < l.len() implies l[i] != '\n' by {
        assert(l[i] == ' ' || !is_ws(l[i]));
    }
    lemma_two_lines(header, l);
    assert(strip_cr(l) == l);
    lemma_trim_unchanged(l);
    assert(seq![strip_cr(header), l].drop_first() =~= seq![l]);
}

/// A `qm list` output of a header line and one data line of six plain columns with a known
/// state gives exactly one row holding those columns, in order; its PID is the sixth column
/// unless that reads `0`, whatever the state.
pub proof fn law_qm_list_six_columns(header: Seq<char>, cols: Seq<Seq<char>>)
    requires
        forall|i: int| 0 <= i < header.len() ==> header[i] != '\n',
        cols.len() == 6,
        plain_columns(cols),
        reported_state(cols[2]),
    ensures
        qm_list(header + "\n"@ + spaced(cols) + "\n"@) == Ok::<Seq<VmRowView>, QmListFailure>(
            seq![
                VmRowView {
                    vmid: cols[0],
                    name: cols[1],
                    status: cols[2],
                    mem_mb: cols[3],
                    disk_gb: cols[4],
                    pid: if cols[5] == "0"@ {
                        None
                    } else {
                        Some(cols[5])
                    },
                },
            ],
        ),
{
    lemma_single_data_line(header, cols);
    let l = spaced(cols);
    let ls = seq![l];
    assert(ls.drop_last() =~= Seq::<Seq<char>>::empty());
    assert(ls.last() == l);
    assert(qm_rows(ls.drop_last()) == Ok::<Seq<VmRowView>, QmListFailure>(seq![]));
    assert(words(l) == cols);
    assert(row_of_columns(words(l)).status == cols[2]);
    assert(line_outcome(l) == LineOutcome::Row(row_of_columns(cols)));
    assert(qm_rows(ls) == Ok::<Seq<VmRowView>, QmListFailure>(seq![row_of_columns(cols)]));
}

/// A `qm list` output of a header line and one data line of five plain columns with a known
/// state gives exactly one row holding those columns, in order, and no PID.
pub proof fn law_qm_list_five_columns(header: Seq<char>, cols: Seq<Seq<char>>)
    requires
        forall|i: int| 0 <= i < header.len() ==> header[i] != '\n',
        cols.len() == 5,
        plain_columns(cols),
        reported_state(cols[2]),
    ensures
        qm_list(header + "\n"@ + spaced(cols) + "\n"@) == Ok::<Seq<VmRowView>, QmListFailure>(
            seq![
                VmRowView {
                    vmid: cols[0],
                    name: cols[1],
                    status: cols[2],
                    mem_mb: cols[3],
                    disk_gb: cols[4],
                    pid: None,
                },
            ],
        ),
{
    lemma_single_data_line(header, cols);
    let l = spaced(cols);
    let ls = seq![l];
    assert(ls.drop_last() =~= Seq::<Seq<char>>::empty());
    assert(ls.last() == l);
    assert(qm_rows(ls.drop_last()) == Ok::<Seq<VmRowView>, QmListFailure>(seq![]));
    assert(words(l) == cols);
    assert(row_of_columns(words(l)).status == cols[2]);
    assert(line_outcome(l) == LineOutcome::Row(row_of_columns(cols)));
    assert(qm_rows(ls) == Ok::<Seq<VmRowView>, QmListFailure>(seq![row_of_columns(cols)]));
}

/// One of the five states `qm` reports, spelled out.
pub open spec fn reported_state(s: Seq<char>) -> bool {
    s == "running"@ || s == "stopped"@ || s == "paused"@ || s == "suspended"@ || s == "prelaunch"@
}

/// Columns that make one row: five or six plain columns with a reported state.
pub open spec fn row_columns(cols: Seq<Seq<char>>) -> bool {
    &&& (cols.len() == 5 || cols.len() == 6)
    &&& plain_columns(cols)
    &&& reported_state(cols[2])
}

proof fn lemma_line_row(cols: Seq<Seq<char>>)
    requires
        row_columns(cols),
    ensures
        line_outcome(spaced(cols)) == LineOutcome::Row(row_of_columns(cols)),
        forall|i: int| 0 <= i < spaced(cols).len() ==> spaced(cols)[i] != '\n',
        spaced(cols).len() > 0,
        spaced(cols).last() != '\r',
{
    lemma_words_spaced(cols);
    let l = spaced(cols);
    assert forall|i: int| 0 <= i < l.len() implies l[i] != '\n' by {
        assert(l[i] == ' ' || !is_ws(l[i]));
    }
    lemma_trim_unchanged(l);
}

proof fn lemma_single_row(header: Seq<char>, cols: Seq<Seq<char>>)
    requires
        forall|i: int| 0 <= i < header.len() ==> header[i] != '\n',
        row_columns(cols),
    ensures
        qm_list(header + "\n"@ + spaced(cols) + "\n"@) == Ok::<Seq<VmRowView>, QmListFailure>(
            seq![row_of_columns(cols)],
        ),
{
    lemma_single_data_line(header, cols);
    lemma_line_row(cols);
    let ls = seq![spaced(cols)];
    assert(ls.drop_last() =~= Seq::<Seq<char>>::empty());
    assert(qm_rows(ls.drop_last()) == Ok::<Seq<VmRowView>, QmListFailure>(seq![]));
}

proof fn lemma_rows_of_table(table: Seq<Seq<Seq<char>>>)
    requires
        forall|r: int| 0 <= r < table.len() ==> row_columns(#[trigger] table[r]),
    ensures
        qm_rows(table.map_values(|c: Seq<Seq<char>>| spaced(c))) == Ok::<
            Seq<VmRowView>,
            QmListFailure,
        >(table.map_values(|c: Seq<Seq<char>>| row_of_columns(c))),
    decreases table.len(),
{
    let data = table.map_values(|c: Seq<Seq<char>>| spaced(c));
    if table.len() == 0 {
        assert(data =~= Seq::<Seq<char>>::empty());
        assert(table.map_values(|c: Seq<Seq<char>>| row_of_columns(c)) =~= Seq::<VmRowView>::empty());
    } else {
        let t0 = table.drop_last();
        assert forall|r: int| 0 <= r < t0.len() implies row_columns(#[trigger] t0[r]) by {
            assert(t0[r] == table[r]);
        }
        lemma_rows_of_table(t0);
        assert(data.drop_last() =~= t0.map_values(|c: Seq<Seq<char>>| spaced(c)));
        assert(data.last() == spaced(table.last()));
        assert(row_columns(table[table.len() - 1]));
        lemma_line_row(table.last());
        assert(t0.map_values(|c: Seq<Seq<char>>| row_of_columns(c)).push(row_of_columns(table.last()))
            =~= table.map_values(|c: Seq<Seq<char>>| row_of_columns(c)));
    }
}

/// Data lines are read independently and in order: a `qm list` output whose data lines are
/// rows of plain columns parses into one row per line, and each row is the one that line
/// gives when it is the only data line.
pub proof fn law_qm_list_rows(header: Seq<char>, table: Seq<Seq<Seq<char>>>)
    requires
        forall|i: int| 0 <= i < header.len() ==> header[i] != '\n',
        forall|r: int| 0 <= r < table.len() ==> row_columns(#[trigger] table[r]),
    ensures
        qm_list(header + "\n"@ + line_block(table.map_values(|c: Seq<Seq<char>>| spaced(c))))
            matches Ok(rows) && rows.len() == table.len() && forall|r: int|
            0 <= r < table.len() ==> qm_list(header + "\n"@ + spaced(#[trigger] table[r]) + "\n"@)
                == Ok::<Seq<VmRowView>, QmListFailure>(seq![rows[r]]),
{
    let data = table.map_values(|c: Seq<Seq<char>>| spaced(c));
    assert forall|k: int, i: int| 0 <= k < data.len() && 0 <= i < data[k].len() implies #[trigger] data[k][i] != '\n' by {
        lemma_line_row(table[k]);
    }
    assert forall|k: int| 0 <= k < data.len() && #[trigger] data[k].len() > 0 implies data[k].last() != '\r' by {
        lemma_line_row(table[k]);
    }
    lemma_lines_block(header, data);
    assert((seq![strip_cr(header)] + data).drop_first() =~= data);
    lemma_rows_of_table(table);
    assert forall|r: int| 0 <= r < table.len() implies qm_list(header + "\n"@ + spaced(#[trigger] table[r]) + "\n"@)
        == Ok::<Seq<VmRowView>, QmListFailure>(seq![table.map_values(|c: Seq<Seq<char>>| row_of_columns(c))[r]]) by {
        lemma_single_row(header, table[r]);
    }
}

/// A data line with neither five nor six columns is rejected, naming its column count and
/// the line.
pub proof fn law_qm_list_column_count(header: Seq<char>, cols: Seq<Seq<char>>)
    requires
        forall|i: int| 0 <= i < header.len() ==> header[i] != '\n',
        cols.len() > 0,
        cols.len() != 5,
        cols.len() != 6,
        plain_columns(cols),
    ensures
        qm_list(header + "\n"@ + spaced(cols) + "\n"@) == Err::<Seq<VmRowView>, QmListFailure>(
            QmListFailure::ColumnCount { columns: cols.len(), line: spaced(cols) },
        ),
{
    lemma_single_data_line(header, cols);
    let ls = seq![spaced(cols)];
    assert(ls.drop_last() =~= Seq::<Seq<char>>::empty());
    assert(qm_rows(ls.drop_last()) == Ok::<Seq<VmRowView>, QmListFailure>(seq![]));
}

/// A data line of five or six columns whose state is not one `qm` reports is rejected,
/// naming that state.
pub proof fn law_qm_list_unknown_state(header: Seq<char>, cols: Seq<Seq<char>>)
    requires
        forall|i: int| 0 <= i < header.len() ==> header[i] != '\n',
        cols.len() == 5 || cols.len() == 6,
        plain_columns(cols),
        !reported_state(cols[2]),
    ensures
        qm_list(header + "\n"@ + spaced(cols) + "\n"@) == Err::<Seq<VmRowView>, QmListFailure>(
            QmListFailure::UnknownStatus { status: cols[2] },
        ),
{
    lemma_single_data_line(header, cols);
    let ls = seq![spaced(cols)];
    assert(ls.drop_last() =~= Seq::<Seq<char>>::empty());
    assert(qm_rows(ls.drop_last()) == Ok::<Seq<VmRowView>, QmListFailure>(seq![]));
}

} // verus!
