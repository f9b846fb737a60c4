use vstd::prelude::*;

use crate::record::{channels_ok, normalize_channels, normalized, tail_from, Address, RecordData};

verus! {

/// The fields of one JSON line of a recording file that the loader reads;
/// `None` where the field is missing or of another JSON type, and array
/// entries that are not unsigned integers as `None`.
#[derive(Debug, Clone)]
pub struct JsonlLine {
    /// The line is an object with a `format` key.
    pub has_format: bool,
    pub channels: Option<Vec<Option<u64>>>,
    pub channel: Option<u64>,
    pub t_ms: Option<u64>,
    pub net: Option<u64>,
    pub subnet: Option<u64>,
    pub universe: Option<u64>,
    pub values: Option<Vec<Option<u64>>>,
}

/// Why a JSON-lines recording cannot be loaded.
#[derive(Debug, Clone, Copy, PartialEq, Eq, Structural)]
pub enum JsonlError {
    MissingTime,
    MissingValues,
}

/// One exported line: a frame's time, address and the values of the
/// selected channels.
#[derive(Debug, Clone)]
pub struct JsonlRow {
    pub t_ms: u64,
    pub net: u8,
    pub subnet: u8,
    pub universe: u8,
    pub values: Vec<u8>,
}

/// Every channel index of a universe, in order.
pub open spec fn all_channels() -> Seq<usize> {
    Seq::new(512, |i: int| i as usize)
}

/// 0-based index of the 1-based channel number `n` (0 stays 0).
pub open spec fn index_of_number(n: u64) -> nat {
    if n == 0 { 0 } else { (n - 1) as nat }
}

/// The in-range channel indices that a header's `channels` array names.
pub open spec fn listed_channels(s: Seq<Option<u64>>) -> Seq<usize>
    decreases s.len(),
{
    if s.len() == 0 {
        Seq::empty()
    } else {
        let r = listed_channels(s.drop_last());
        match s.last() {
            Some(n) => if index_of_number(n) < 512 { r.push(index_of_number(n) as usize) } else { r },
            None => r,
        }
    }
}

/// The channel list that a header line selects.
pub open spec fn header_channels(h: JsonlLine) -> Seq<usize> {
    match h.channels {
        Some(v) => listed_channels(v@),
        None => match h.channel {
            Some(c) => if index_of_number(c) < 512 { seq![index_of_number(c) as usize] } else { all_channels() },
            None => all_channels(),
        },
    }
}

/// Whether the file's first line is a header.
pub open spec fn has_header(lines: Seq<JsonlLine>) -> bool {
    lines.len() > 0 && lines[0].has_format
}

/// The channel list that the columns of the data lines follow.
pub open spec fn raw_channels(lines: Seq<JsonlLine>) -> Seq<usize> {
    if has_header(lines) { header_channels(lines[0]) } else { all_channels() }
}

/// The lines that carry frames.
pub open spec fn data_lines(lines: Seq<JsonlLine>) -> Seq<JsonlLine> {
    if has_header(lines) { lines.drop_first() } else { lines }
}

/// What is wrong with a data line, if anything.
pub open spec fn line_error(l: JsonlLine) -> Option<JsonlError> {
    if l.t_ms.is_none() {
        Some(JsonlError::MissingTime)
    } else if l.values.is_none() {
        Some(JsonlError::MissingValues)
    } else {
        None
    }
}

/// The low byte of a JSON number.
pub open spec fn low_byte(x: u64) -> u8 {
    (x % 256) as u8
}

/// The value in column `j` of a data line, 0 where it is absent.
pub open spec fn value_cell(l: JsonlLine, j: int) -> u8 {
    match l.values {
        Some(v) => if 0 <= j < v@.len() {
            match v@[j] {
                Some(x) => low_byte(x),
                None => 0,
            }
        } else {
            0
        },
        None => 0,
    }
}

/// The address of a data line, missing parts read as 0.
pub open spec fn line_address(l: JsonlLine) -> Address {
    (
        low_byte(l.net.unwrap_or(0)),
        low_byte(l.subnet.unwrap_or(0)),
        low_byte(l.universe.unwrap_or(0)),
    )
}

/// `j` is where `c` first stands in `s`.
pub open spec fn first_at(s: Seq<usize>, c: usize, j: int) -> bool {
    0 <= j < s.len() && s[j] == c && forall|m: int| 0 <= m < j ==> s[m] != c
}

/// The first faulty line of `data` fails with `e`.
pub open spec fn first_error_is(data: Seq<JsonlLine>, e: JsonlError) -> bool {
    exists|i: int| 0 <= i < data.len() && line_error(#[trigger] data[i]) == Some(e)
        && forall|m: int| 0 <= m < i ==> line_error(#[trigger] data[m]).is_none()
}

fn listed_channels_exec(v: &Vec<Option<u64>>) -> (r: Vec<usize>)
    ensures
        r@ == listed_channels(v@),
{
    let mut r: Vec<usize> = Vec::new();
    let mut i: usize = 0;
    while i < v.len()
        invariant
            i <= v@.len(),
            r@ == listed_channels(v@.take(i as int)),
        decreases v@.len() - i,
    {
        proof {
            assert(v@.take(i + 1).drop_last() =~= v@.take(i as int));
        }
        match v[i] {
            Some(n) => {
                let idx: u64 = if n == 0 { 0 } else { n - 1 };
                if idx < 512 {
                    r.push(idx as usize);
                }
            },
            None => {},
        }
        i = i + 1;
    }
    assert(v@.take(v@.len() as int) =~= v@);
    r
}

fn all_channels_exec() -> (r: Vec<usize>)
    ensures
        r@ == all_channels(),
{
    let mut r: Vec<usize> = Vec::new();
    let mut i: usize = 0;
    while i < 512
        invariant
            i <= 512,
            r@ == Seq::new(i as nat, |m: int| m as usize),
        decreases 512 - i,
    {
        r.push(i);
        assert(r@ =~= Seq::new((i + 1) as nat, |m: int| m as usize));
        i = i + 1;
    }
    r
}

fn header_channels_exec(h: &JsonlLine) -> (r: Vec<usize>)
    ensures
        r@ == header_channels(*h),
{
    match &h.channels {
        Some(v) => listed_channels_exec(v),
        None => match h.channel {
            Some(c) => {
                let idx: u64 = if c == 0 { 0 } else { c - 1 };
                if idx < 512 {
                    let mut r: Vec<usize> = Vec::new();
                    r.push(idx as usize);
                    assert(r@ =~= seq![index_of_number(c) as usize]);
                    r
                } else {
                    all_channels_exec()
                }
            },
            None => all_channels_exec(),
        },
    }
}

fn value_cell_exec(l: &JsonlLine, j: usize) -> (r: u8)
    ensures
        r == value_cell(*l, j as int),
{
    match &l.values {
        Some(v) => if j < v.len() {
            match v[j] {
                Some(x) => (x % 256) as u8,
                None => 0,
            }
        } else {
            0
        },
        None => 0,
    }
}

/// Builds a recording from the lines of a JSON-lines file. A first line
/// with a `format` key is the header and names the channels (1-based);
/// without one all 512 channels are read. Each data line needs `t_ms` and
/// `values`; missing address parts read as 0. Channels are deduplicated,
/// each keeping the column of its first mention.
pub fn record_from_jsonl(lines: &Vec<JsonlLine>) -> (r: Result<RecordData, JsonlError>)
    ensures
        match r {
            Ok(d) => {
                let data = data_lines(lines@);
                let raw = raw_channels(lines@);
                &&& forall|i: int| 0 <= i < data.len() ==> line_error(#[trigger] data[i]).is_none()
                &&& d.wf()
                &&& d.channels@ == normalized(raw)
                &&& d.timestamps@.len() == data.len()
                &&& forall|i: int| 0 <= i < data.len() ==> #[trigger] d.timestamps@[i] == data[i].t_ms.unwrap()
                &&& forall|i: int| 0 <= i < data.len() ==> #[trigger] d.addresses@[i] == line_address(data[i])
                &&& forall|k: int, j: int|
                    #![trigger d.column(k), first_at(raw, d.channels@[k], j)]
                    0 <= k < d.channels@.len() && first_at(raw, d.channels@[k], j)
                    ==> d.column(k) == Seq::new(data.len(), |i: int| value_cell(data[i], j))
            },
            Err(e) => first_error_is(data_lines(lines@), e),
        },
{
    let header = lines.len() > 0 && lines[0].has_format;
    let raw = if header {
        header_channels_exec(&lines[0])
    } else {
        all_channels_exec()
    };
    let first: usize = if header { 1 } else { 0 };
    let ghost data = data_lines(lines@);
    assert(data =~= lines@.subrange(first as int, lines@.len() as int));
    let n = lines.len() - first;
    let mut timestamps: Vec<u64> = Vec::new();
    let mut addresses: Vec<Address> = Vec::new();
    let mut i: usize = 0;
    while i < n
        invariant
            i <= n,
            data == data_lines(lines@),
            n == data.len(),
            first + n == lines@.len(),
            lines@.len() <= usize::MAX,
            data == lines@.subrange(first as int, lines@.len() as int),
            timestamps@.len() == i,
            addresses@.len() == i,
            forall|m: int| 0 <= m < i ==> line_error(#[trigger] data[m]).is_none(),
            forall|m: int| 0 <= m < i ==> #[trigger] timestamps@[m] == data[m].t_ms.unwrap(),
            forall|m: int| 0 <= m < i ==> #[trigger] addresses@[m] == line_address(data[m]),
        decreases n - i,
    {
        let l = &lines[first + i];
        assert(*l == data[i as int]);
        let t = match l.t_ms {
            Some(t) => t,
            None => {
                assert(line_error(data[i as int]) == Some(JsonlError::MissingTime));
                assert(first_error_is(data, JsonlError::MissingTime));
                return Err(JsonlError::MissingTime);
            },
        };
        if l.values.is_none() {
            assert(line_error(data[i as int]) == Some(JsonlError::MissingValues));
                assert(first_error_is(data, JsonlError::MissingValues));
            return Err(JsonlError::MissingValues);
        }
        timestamps.push(t);
        let net = match l.net { Some(x) => (x % 256) as u8, None => 0 };
        let subnet = match l.subnet { Some(x) => (x % 256) as u8, None => 0 };
        let universe = match l.universe { Some(x) => (x % 256) as u8, None => 0 };
        addresses.push((net, subnet, universe));
        i = i + 1;
    }
    let copy = tail_from(&raw, 0);
    assert(copy@ =~= raw@);
    let channels = normalize_channels(copy);
    let mut values: Vec<Vec<u8>> = Vec::new();
    let mut k: usize = 0;
    while k < channels.len()
        invariant
            k <= channels@.len(),
            channels@ == normalized(raw@),
            channels_ok(channels@),
            lines@.len() <= usize::MAX,
            forall|c: usize| channels@.contains(c) <==> (c < 512 && raw@.contains(c)),
            n == data.len(),
            data == data_lines(lines@),
            first + n == lines@.len(),
            data == lines@.subrange(first as int, lines@.len() as int),
            values@.len() == k,
            forall|q: int, j: int|
                #![trigger values@[q], first_at(raw@, channels@[q], j)]
                0 <= q < k && first_at(raw@, channels@[q], j)
                ==> values@[q]@ == Seq::new(n as nat, |m: int| value_cell(data[m], j)),
            forall|q: int| 0 <= q < k ==> #[trigger] values@[q]@.len() == n,
        decreases channels@.len() - k,
    {
        let c = channels[k];
        assert(channels@.contains(c));
        let mut j: usize = 0;
        while j < raw.len() && raw[j] != c
            invariant
                j <= raw@.len(),
                raw@.contains(c),
                forall|m: int| 0 <= m < j ==> raw@[m] != c,
            decreases raw@.len() - j,
        {
            j = j + 1;
        }
        assert(j < raw@.len());
        let mut col: Vec<u8> = Vec::new();
        let mut m: usize = 0;
        while m < n
            invariant
                m <= n,
                lines@.len() <= usize::MAX,
                n == data.len(),
                first + n == lines@.len(),
                data == lines@.subrange(first as int, lines@.len() as int),
                col@ == Seq::new(m as nat, |q: int| value_cell(data[q], j as int)),
            decreases n - m,
        {
            let v = value_cell_exec(&lines[first + m], j);
            col.push(v);
            assert(col@ =~= Seq::new((m + 1) as nat, |q: int| value_cell(data[q], j as int)));
            m = m + 1;
        }
        proof {
            assert forall|jj: int| first_at(raw@, c, jj) implies jj == j by {
                if jj < j {
                    assert(raw@[jj] != c);
                } else if jj > j {
                    assert(raw@[j as int] == c);
                }
            }
        }
        values.push(col);
        k = k + 1;
    }
    let d = RecordData { timestamps, addresses, channels, values };
    proof {
        assert(raw_channels(lines@) == raw@);
    }
    Ok(d)
}

/// The lines of a recording's JSON-lines export: times relative to the first
/// frame (never below zero) and, per frame, the values of the selected
/// channels in their order.
pub fn jsonl_rows(data: &RecordData) -> (r: Vec<JsonlRow>)
    requires
        data.wf(),
    ensures
        r@.len() == data.timestamps@.len(),
        forall|i: int| 0 <= i < r@.len() ==> {
            &&& #[trigger] r@[i].t_ms == if data.timestamps@[i] >= data.timestamps@[0] {
                data.timestamps@[i] - data.timestamps@[0]
            } else {
                0
            }
            &&& (r@[i].net, r@[i].subnet, r@[i].universe) == data.addresses@[i]
            &&& r@[i].values@ == Seq::new(data.values@.len(), |k: int| data.column(k)[i])
        },
{
    let n = data.timestamps.len();
    let mut rows: Vec<JsonlRow> = Vec::new();
    if n == 0 {
        return rows;
    }
    let base = data.timestamps[0];
    let mut i: usize = 0;
    while i < n
        invariant
            i <= n,
            n == data.timestamps@.len(),
            n > 0,
            base == data.timestamps@[0],
            data.wf(),
            rows@.len() == i,
            forall|m: int| 0 <= m < i ==> {
                &&& #[trigger] rows@[m].t_ms == if data.timestamps@[m] >= base { data.timestamps@[m] - base } else { 0 }
                &&& (rows@[m].net, rows@[m].subnet, rows@[m].universe) == data.addresses@[m]
                &&& rows@[m].values@ == Seq::new(data.values@.len(), |k: int| data.column(k)[m])
            },
        decreases n - i,
    {
        let t = data.timestamps[i];
        let (net, subnet, universe) = data.addresses[i];
        let mut values: Vec<u8> = Vec::new();
        let mut k: usize = 0;
        while k < data.values.len()
            invariant
                k <= data.values@.len(),
                i < n,
                n == data.timestamps@.len(),
                data.wf(),
                values@ == Seq::new(k as nat, |q: int| data.column(q)[i as int]),
            decreases data.values@.len() - k,
        {
            assert(data.values@[k as int]@.len() == n);
            values.push(data.values[k][i]);
            assert(values@ =~= Seq::new((k + 1) as nat, |q: int| data.column(q)[i as int]));
            k = k + 1;
        }
        rows.push(JsonlRow { t_ms: if t >= base { t - base } else { 0 }, net, subnet, universe, values });
        i = i + 1;
    }
    rows
}

} // verus!
