//! The three-state outcome of analyzing one file, and the record types that
//! discovery and scanning produce.

use vstd::prelude::*;
use vstd::string::*;

verus! {

/// What analyzing one file concluded.
///
/// `Rated` carries a rating in `0..=254`. `Error` means the file was scanned
/// but no usable rating was obtained (unreadable file, no pattern match, an
/// explicit error token, or an out-of-range number). `Pending` means the file
/// was discovered but not yet scanned. `Error` and `Pending` stay distinct
/// variants: both lack a numeric value, but they sort differently and display
/// differently.
#[derive(Clone, Copy, Debug, PartialEq, Eq, Structural)]
pub enum AnalysisOutcome {
    Rated(u8),
    Error,
    Pending,
}

impl AnalysisOutcome {
    /// A rated outcome carries a value in `0..=254`.
    pub open spec fn wf(self) -> bool {
        match self {
            AnalysisOutcome::Rated(v) => v <= 254,
            _ => true,
        }
    }
}

/// A file found by discovery: its display name and its full path.
#[derive(Debug)]
pub struct ScanTarget {
    pub filename: String,
    pub path: String,
}

/// The unit of publication: one file together with its analysis outcome.
#[derive(Debug)]
pub struct ScanResult {
    pub filename: String,
    pub path: String,
    pub outcome: AnalysisOutcome,
}

impl Clone for ScanTarget {
    fn clone(&self) -> (r: Self)
        ensures
            r == *self,
    {
        ScanTarget { filename: self.filename.clone(), path: self.path.clone() }
    }
}

impl Clone for ScanResult {
    fn clone(&self) -> (r: Self)
        ensures
            r == *self,
    {
        ScanResult {
            filename: self.filename.clone(),
            path: self.path.clone(),
            outcome: self.outcome,
        }
    }
}

pub open spec fn spec_digit_char(d: int) -> char {
    if d == 0 {
        '0'
    } else if d == 1 {
        '1'
    } else if d == 2 {
        '2'
    } else if d == 3 {
        '3'
    } else if d == 4 {
        '4'
    } else if d == 5 {
        '5'
    } else if d == 6 {
        '6'
    } else if d == 7 {
        '7'
    } else if d == 8 {
        '8'
    } else {
        '9'
    }
}

/// The decimal digits of a rating value, most significant first.
pub open spec fn spec_decimal(v: int) -> Seq<char> {
    if v < 10 {
        seq![spec_digit_char(v)]
    } else if v < 100 {
        seq![spec_digit_char(v / 10), spec_digit_char(v % 10)]
    } else {
        seq![spec_digit_char(v / 100), spec_digit_char((v / 10) % 10), spec_digit_char(v % 10)]
    }
}

/// The label a result displays: the decimal rating, `ERR`, or `PENDING`.
pub open spec fn spec_label(o: AnalysisOutcome) -> Seq<char> {
    match o {
        AnalysisOutcome::Rated(v) => spec_decimal(v as int),
        AnalysisOutcome::Error => seq!['E', 'R', 'R'],
        AnalysisOutcome::Pending => seq!['P', 'E', 'N', 'D', 'I', 'N', 'G'],
    }
}

fn digit_str(d: u8) -> (s: &'static str)
    requires
        d < 10,
    ensures
        s@ == seq![spec_digit_char(d as int)],
{
    proof {
        reveal_strlit("0");
        reveal_strlit("1");
        reveal_strlit("2");
        reveal_strlit("3");
        reveal_strlit("4");
        reveal_strlit("5");
        reveal_strlit("6");
        reveal_strlit("7");
        reveal_strlit("8");
        reveal_strlit("9");
    }
    let s = if d == 0 {
        "0"
    } else if d == 1 {
        "1"
    } else if d == 2 {
        "2"
    } else if d == 3 {
        "3"
    } else if d == 4 {
        "4"
    } else if d == 5 {
        "5"
    } else if d == 6 {
        "6"
    } else if d == 7 {
        "7"
    } else if d == 8 {
        "8"
    } else {
        "9"
    };
    proof {
        assert(s@ =~= seq![spec_digit_char(d as int)]);
    }
    s
}

/// Renders the outcome as its display label.
pub fn rating_label(o: &AnalysisOutcome) -> (s: String)
    ensures
        s@ == spec_label(*o),
{
    match o {
        AnalysisOutcome::Rated(v) => {
            let v = *v;
            let mut s = String::new();
            if v >= 100 {
                s.append(digit_str(v / 100));
                s.append(digit_str((v / 10) % 10));
            } else if v >= 10 {
                s.append(digit_str(v / 10));
            }
            s.append(digit_str(v % 10));
            proof {
                if v >= 100 {
                    assert(s@ =~= spec_decimal(v as int));
                } else if v >= 10 {
                    assert(v / 10 == (v as int) / 10 % 10);
                    assert(s@ =~= spec_decimal(v as int));
                } else {
                    assert(s@ =~= spec_decimal(v as int));
                }
            }
            s
        },
        AnalysisOutcome::Error => {
            proof {
                reveal_strlit("ERR");
            }
            let s = String::from_str("ERR");
            proof {
                assert(s@ =~= spec_label(AnalysisOutcome::Error));
            }
            s
        },
        AnalysisOutcome::Pending => {
            proof {
                reveal_strlit("PENDING");
            }
            let s = String::from_str("PENDING");
            proof {
                assert(s@ =~= spec_label(AnalysisOutcome::Pending));
            }
            s
        },
    }
}

/// The fresh result for a just-discovered file: not yet scanned.
pub fn pending_result(target: &ScanTarget) -> (r: ScanResult)
    ensures
        r.filename == target.filename,
        r.path == target.path,
        r.outcome == AnalysisOutcome::Pending,
{
    ScanResult {
        filename: target.filename.clone(),
        path: target.path.clone(),
        outcome: AnalysisOutcome::Pending,
    }
}

/// One published row, as the presentation collaborator consumes it: display
/// name, full path, and the rating label.
#[derive(Debug)]
pub struct DisplayRow {
    pub name: String,
    pub path: String,
    pub label: String,
}

/// Renders one result as its published row.
pub fn row_of(r: &ScanResult) -> (row: DisplayRow)
    ensures
        row.name == r.filename,
        row.path == r.path,
        row.label@ == spec_label(r.outcome),
{
    DisplayRow { name: r.filename.clone(), path: r.path.clone(), label: rating_label(&r.outcome) }
}

/// Renders a whole batch as rows, keeping its order.
pub fn rows_of(batch: &Vec<ScanResult>) -> (rows: Vec<DisplayRow>)
    ensures
        rows@.len() == batch@.len(),
        forall|i: int|
            0 <= i < batch@.len() ==> {
                &&& (#[trigger] rows@[i]).name == batch@[i].filename
                &&& rows@[i].path == batch@[i].path
                &&& rows@[i].label@ == spec_label(batch@[i].outcome)
            },
{
    let mut rows: Vec<DisplayRow> = Vec::new();
    let mut i: usize = 0;
    while i < batch.len()
        invariant
            i <= batch@.len(),
            rows@.len() == i,
            forall|j: int|
                0 <= j < i ==> {
                    &&& (#[trigger] rows@[j]).name == batch@[j].filename
                    &&& rows@[j].path == batch@[j].path
                    &&& rows@[j].label@ == spec_label(batch@[j].outcome)
                },
        decreases batch@.len() - i,
    {
        rows.push(row_of(&batch[i]));
        i = i + 1;
    }
    rows
}

/// The result set a directory selection publishes: every discovered file,
/// each still pending.
pub fn initial_results(targets: &Vec<ScanTarget>) -> (rs: Vec<ScanResult>)
    ensures
        rs@.len() == targets@.len(),
        forall|i: int|
            0 <= i < rs@.len() ==> {
                &&& (#[trigger] rs@[i]).filename == targets@[i].filename
                &&& rs@[i].path == targets@[i].path
                &&& rs@[i].outcome == AnalysisOutcome::Pending
            },
{
    let mut rs: Vec<ScanResult> = Vec::new();
    let mut i: usize = 0;
    while i < targets.len()
        invariant
            i <= targets@.len(),
            rs@.len() == i,
            forall|j: int|
                0 <= j < i ==> {
                    &&& (#[trigger] rs@[j]).filename == targets@[j].filename
                    &&& rs@[j].path == targets@[j].path
                    &&& rs@[j].outcome == AnalysisOutcome::Pending
                },
        decreases targets@.len() - i,
    {
        rs.push(pending_result(&targets[i]));
        i = i + 1;
    }
    rs
}

} // verus!
