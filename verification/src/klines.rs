use vstd::prelude::*;

verus! {

/// Fewest fields a kline row of the REST API has; shorter rows are skipped.
pub const KLINE_ROW_FIELDS: usize = 12;

/// One field of a kline row as the JSON response holds it.
#[derive(Debug, Clone, Copy, PartialEq, Eq, Structural)]
pub enum KlineCell {
    /// An unsigned integer.
    Integer(u64),
    /// A string; `number` tells whether it reads as a decimal number
    /// (prices and volumes are sent as strings).
    Text { number: bool },
    /// Any other JSON value.
    Other,
}

/// One element of the response.
#[derive(Debug, Clone)]
pub enum KlineRow {
    /// An array of fields.
    Cells(Vec<KlineCell>),
    /// Anything but an array.
    NotArray,
}

/// The whole response.
#[derive(Debug, Clone)]
pub enum KlineResponse {
    /// An array of rows.
    Rows(Vec<KlineRow>),
    /// Anything but an array.
    NotArray,
}

/// Why a kline response was refused. Fields are numbered as in a row:
/// 1 open, 2 high, 3 low, 4 close, 5 volume.
#[derive(Debug, Clone, Copy, PartialEq, Eq, Structural)]
pub enum KlineError {
    ResponseNotArray,
    RowNotArray,
    InvalidTimestamp,
    /// The field is not a string.
    InvalidField(usize),
    /// The field is a string that does not read as a number.
    UnparsableField(usize),
}

/// Name of a price or volume field in messages.
pub open spec fn field_name(f: usize) -> Seq<char> {
    if f == 1 {
        "open price"@
    } else if f == 2 {
        "high price"@
    } else if f == 3 {
        "low price"@
    } else if f == 4 {
        "close price"@
    } else {
        "volume"@
    }
}

impl KlineError {
    /// The message of the error; for an unparsable field the reason of the
    /// failed number parse follows it after `: `.
    pub open spec fn spec_message(&self) -> Seq<char> {
        match self {
            KlineError::ResponseNotArray => "Response is not an array"@,
            KlineError::RowNotArray => "Kline is not an array"@,
            KlineError::InvalidTimestamp => "Invalid timestamp"@,
            KlineError::InvalidField(f) => "Invalid "@ + field_name(*f),
            KlineError::UnparsableField(f) => "Failed to parse "@ + field_name(*f),
        }
    }

    pub fn message(&self) -> (r: String)
        ensures
            r@ == self.spec_message(),
    {
        match self {
            KlineError::ResponseNotArray => String::from_str("Response is not an array"),
            KlineError::RowNotArray => String::from_str("Kline is not an array"),
            KlineError::InvalidTimestamp => String::from_str("Invalid timestamp"),
            KlineError::InvalidField(f) => {
                let mut r = String::from_str("Invalid ");
                r.append(field_label(*f));
                r
            },
            KlineError::UnparsableField(f) => {
                let mut r = String::from_str("Failed to parse ");
                r.append(field_label(*f));
                r
            },
        }
    }
}

fn field_label(f: usize) -> (r: &'static str)
    ensures
        r@ == field_name(f),
{
    if f == 1 {
        "open price"
    } else if f == 2 {
        "high price"
    } else if f == 3 {
        "low price"
    } else if f == 4 {
        "close price"
    } else {
        "volume"
    }
}

/// The first problem among the price and volume fields `f..=5` of a row,
/// checked in order: a field that is not a string, or a string that does not
/// read as a number.
pub open spec fn field_problem(cells: Seq<KlineCell>, f: nat) -> Option<KlineError>
    decreases 6 - f,
{
    if f > 5 || f >= cells.len() {
        None
    } else {
        match cells[f as int] {
            KlineCell::Text { number } => if number {
                field_problem(cells, f + 1)
            } else {
                Some(KlineError::UnparsableField(f as usize))
            },
            _ => Some(KlineError::InvalidField(f as usize)),
        }
    }
}

/// What becomes of one row: `None` to skip it, `Some(Ok(()))` to keep it,
/// `Some(Err(e))` to refuse the response.
pub open spec fn row_verdict(row: KlineRow) -> Option<Result<(), KlineError>> {
    match row {
        KlineRow::NotArray => Some(Err(KlineError::RowNotArray)),
        KlineRow::Cells(cells) => if cells@.len() < KLINE_ROW_FIELDS {
            None
        } else if !(cells@[0] is Integer) {
            Some(Err(KlineError::InvalidTimestamp))
        } else {
            match field_problem(cells@, 1) {
                Some(e) => Some(Err(e)),
                None => Some(Ok(())),
            }
        },
    }
}

/// The positions of the kept rows, in order, or the problem of the first
/// refused row.
pub open spec fn check_rows(rows: Seq<KlineRow>) -> Result<Seq<usize>, KlineError>
    decreases rows.len(),
{
    if rows.len() == 0 {
        Ok(Seq::empty())
    } else {
        match check_rows(rows.drop_last()) {
            Err(e) => Err(e),
            Ok(kept) => match row_verdict(rows.last()) {
                None => Ok(kept),
                Some(Ok(())) => Ok(kept.push((rows.len() - 1) as usize)),
                Some(Err(e)) => Err(e),
            },
        }
    }
}

/// The rows of a kline response to turn into candles, or why the response is
/// refused: a response that is not an array is refused; rows are read in
/// order, a row that is not an array refuses the response, a row of fewer
/// than twelve fields is skipped, and a longer row needs an integer time and
/// five numeric strings (open, high, low, close, volume), else the response
/// is refused with the first problem found.
pub open spec fn spec_kline_rows(response: KlineResponse) -> Result<Seq<usize>, KlineError> {
    match response {
        KlineResponse::NotArray => Err(KlineError::ResponseNotArray),
        KlineResponse::Rows(rows) => check_rows(rows@),
    }
}

/// A refusal found in the first rows stands for the whole response.
proof fn lemma_check_rows_err_persists(rows: Seq<KlineRow>, i: int, e: KlineError)
    requires
        0 <= i <= rows.len(),
        check_rows(rows.take(i)) == Err::<Seq<usize>, KlineError>(e),
    ensures
        check_rows(rows) == Err::<Seq<usize>, KlineError>(e),
    decreases rows.len() - i,
{
    if i < rows.len() {
        assert(rows.take(i + 1).drop_last() =~= rows.take(i));
        lemma_check_rows_err_persists(rows, i + 1, e);
    } else {
        assert(rows.take(i) =~= rows);
    }
}

fn row_check(row: &KlineRow) -> (r: Option<Result<(), KlineError>>)
    ensures
        r == row_verdict(*row),
{
    match row {
        KlineRow::NotArray => Some(Err(KlineError::RowNotArray)),
        KlineRow::Cells(cells) => {
            if cells.len() < KLINE_ROW_FIELDS {
                return None;
            }
            match cells[0] {
                KlineCell::Integer(_) => {},
                _ => {
                    return Some(Err(KlineError::InvalidTimestamp));
                },
            }
            let mut f: usize = 1;
            while f <= 5
                invariant
                    1 <= f <= 6,
                    row_verdict(*row) == (match field_problem(cells@, 1) {
                        Some(e) => Some(Err(e)),
                        None => Some(Ok::<(), KlineError>(())),
                    }),
                    cells@.len() >= KLINE_ROW_FIELDS,
                    field_problem(cells@, 1) == field_problem(cells@, f as nat),
                decreases 6 - f,
            {
                match cells[f] {
                    KlineCell::Text { number } => {
                        if !number {
                            return Some(Err(KlineError::UnparsableField(f)));
                        }
                    },
                    _ => {
                        return Some(Err(KlineError::InvalidField(f)));
                    },
                }
                f += 1;
            }
            Some(Ok(()))
        },
    }
}

/// The rows of `response` to turn into candles (see `spec_kline_rows`).
pub fn kline_rows(response: &KlineResponse) -> (r: Result<Vec<usize>, KlineError>)
    ensures
        match (r, spec_kline_rows(*response)) {
            (Ok(v), Ok(s)) => v@ == s,
            (Err(e), Err(t)) => e == t,
            _ => false,
        },
{
    match response {
        KlineResponse::NotArray => Err(KlineError::ResponseNotArray),
        KlineResponse::Rows(rows) => {
            let n = rows.len();
            let mut kept: Vec<usize> = Vec::new();
            let mut i: usize = 0;
            while i < n
                invariant
                    i <= n,
                    n == rows@.len(),
                    spec_kline_rows(*response) == check_rows(rows@),
                    check_rows(rows@.take(i as int)) == Ok::<Seq<usize>, KlineError>(kept@),
                decreases n - i,
            {
                proof {
                    assert(rows@.take(i + 1).drop_last() =~= rows@.take(i as int));
                    assert(rows@.take(i + 1).last() == rows@[i as int]);
                }
                match row_check(&rows[i]) {
                    None => {},
                    Some(Ok(())) => {
                        kept.push(i);
                    },
                    Some(Err(e)) => {
                        proof {
                            let t = rows@.take(i + 1);
                            assert(t.last() == rows@[i as int]);
                            assert(row_verdict(t.last()) == Some(Err::<(), KlineError>(e)));
                            assert(check_rows(t) == Err::<Seq<usize>, KlineError>(e));
                            lemma_check_rows_err_persists(rows@, i + 1, e);
                        }
                        return Err(e);
                    },
                }
                i += 1;
            }
            proof {
                assert(rows@.take(n as int) =~= rows@);
            }
            Ok(kept)
        },
    }
}

} // verus!
