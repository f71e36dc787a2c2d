use vstd::prelude::*;

use crate::errors::FdeError;

verus! {

/// A byte the decoder trims at a line's ends: space, tab, or carriage
/// return.
pub open spec fn is_blank_byte(b: u8) -> bool {
    b == 32 || b == 9 || b == 13
}

/// Splits a byte text into lines at newline bytes, the bytes read so far
/// of the current line carried in `cur`.
pub open spec fn split_acc(cur: Seq<u8>, data: Seq<u8>) -> Seq<Seq<u8>>
    decreases data.len(),
{
    if data.len() == 0 {
        seq![cur]
    } else if data[0] == 10 {
        seq![cur] + split_acc(Seq::empty(), data.drop_first())
    } else {
        split_acc(cur.push(data[0]), data.drop_first())
    }
}

/// The lines of a byte text.
pub open spec fn spec_lines(data: Seq<u8>) -> Seq<Seq<u8>> {
    split_acc(Seq::empty(), data)
}

pub open spec fn trim_front(s: Seq<u8>) -> Seq<u8>
    decreases s.len(),
{
    if s.len() > 0 && is_blank_byte(s.first()) {
        trim_front(s.drop_first())
    } else {
        s
    }
}

pub open spec fn trim_back(s: Seq<u8>) -> Seq<u8>
    decreases s.len(),
{
    if s.len() > 0 && is_blank_byte(s.last()) {
        trim_back(s.drop_last())
    } else {
        s
    }
}

/// A line with its leading and trailing blanks removed.
pub open spec fn spec_trim(s: Seq<u8>) -> Seq<u8> {
    trim_back(trim_front(s))
}

/// The value of an ASCII hex digit, `None` for any other byte.
pub open spec fn spec_nibble(b: u8) -> Option<u8> {
    if 48 <= b && b <= 57 {
        Some((b - 48) as u8)
    } else if 65 <= b && b <= 70 {
        Some((b - 55) as u8)
    } else if 97 <= b && b <= 102 {
        Some((b - 87) as u8)
    } else {
        None
    }
}

/// Scans one trimmed line from position `i` with accumulator `acc`: an
/// underscore flushes the accumulator as a word, a space or tab ends the
/// line early, a hex digit is shifted in, and anything else fails with the
/// byte and its 1-based position. The accumulator is flushed once more at
/// the end of the line.
pub open spec fn scan_line(t: Seq<u8>, i: int, line: int, acc: u16, words: Seq<u16>) -> Result<
    Seq<u16>,
    FdeError,
>
    decreases t.len() - i,
{
    if i < 0 || i >= t.len() {
        Ok(words.push(acc))
    } else if t[i] == 95 {
        scan_line(t, i + 1, line, 0u16, words.push(acc))
    } else if t[i] == 32 || t[i] == 9 {
        Ok(words.push(acc))
    } else {
        match spec_nibble(t[i]) {
            Some(nib) => scan_line(t, i + 1, line, (acc << 4) | (nib as u16), words),
            None => Err(
                (FdeError::InvalidCharacter {
                    ch: t[i],
                    line: line as usize,
                    column: (i + 1) as usize,
                }),
            ),
        }
    }
}

/// Decodes the lines from index `k` on, words decoded so far in `words`:
/// lines that are blank after trimming are skipped; the first invalid
/// character aborts the whole decode.
pub open spec fn decode_lines(lines: Seq<Seq<u8>>, k: int, words: Seq<u16>) -> Result<
    Seq<u16>,
    FdeError,
>
    decreases lines.len() - k,
{
    if k < 0 || k >= lines.len() {
        Ok(words)
    } else {
        let t = spec_trim(lines[k]);
        if t.len() == 0 {
            decode_lines(lines, k + 1, words)
        } else {
            match scan_line(t, 0, k + 1, 0u16, words) {
                Ok(ws) => decode_lines(lines, k + 1, ws),
                Err(e) => Err(e),
            }
        }
    }
}

/// The word sequence a bitstream text decodes to, or the first invalid
/// character with its 1-based line and column.
pub open spec fn spec_decode(data: Seq<u8>) -> Result<Seq<u16>, FdeError> {
    decode_lines(spec_lines(data), 0, Seq::empty())
}

fn blank_byte(b: u8) -> (r: bool)
    ensures
        r == is_blank_byte(b),
{
    b == 32 || b == 9 || b == 13
}

fn nibble(b: u8) -> (r: Option<u8>)
    ensures
        r == spec_nibble(b),
{
    if b >= 48 && b <= 57 {
        Some(b - 48)
    } else if b >= 65 && b <= 70 {
        Some(b - 55)
    } else if b >= 97 && b <= 102 {
        Some(b - 87)
    } else {
        None
    }
}

fn split_lines(data: &[u8]) -> (r: Vec<Vec<u8>>)
    ensures
        r@.map_values(|l: Vec<u8>| l@) == spec_lines(data@),
{
    let mut lines: Vec<Vec<u8>> = Vec::new();
    let mut cur: Vec<u8> = Vec::new();
    let n = data.len();
    let mut i: usize = 0;
    proof {
        assert(data@.skip(0) =~= data@);
        assert(lines@.map_values(|l: Vec<u8>| l@) =~= Seq::<Seq<u8>>::empty());
        assert(Seq::<Seq<u8>>::empty() + split_acc(cur@, data@.skip(0)) =~= split_acc(
            cur@,
            data@.skip(0),
        ));
    }
    while i < n
        invariant
            n == data@.len(),
            i <= n,
            spec_lines(data@) == lines@.map_values(|l: Vec<u8>| l@) + split_acc(
                cur@,
                data@.skip(i as int),
            ),
        decreases n - i,
    {
        let ghost pre_lines = lines@;
        let ghost pre_cur = cur@;
        proof {
            assert(data@.skip(i as int).drop_first() =~= data@.skip(i as int + 1));
            assert(data@.skip(i as int)[0] == data@[i as int]);
        }
        let b = data[i];
        if b == 10 {
            lines.push(cur);
            cur = Vec::new();
            proof {
                assert(lines@.map_values(|l: Vec<u8>| l@) =~= pre_lines.map_values(
                    |l: Vec<u8>| l@,
                ).push(pre_cur));
                assert(pre_lines.map_values(|l: Vec<u8>| l@) + (seq![pre_cur] + split_acc(
                    Seq::empty(),
                    data@.skip(i as int + 1),
                )) =~= (pre_lines.map_values(|l: Vec<u8>| l@).push(pre_cur)) + split_acc(
                    Seq::empty(),
                    data@.skip(i as int + 1),
                ));
            }
        } else {
            cur.push(b);
        }
        i = i + 1;
    }
    assert(data@.skip(n as int).len() == 0);
    let ghost pre_lines = lines@;
    let ghost pre_cur = cur@;
    lines.push(cur);
    proof {
        assert(lines@.map_values(|l: Vec<u8>| l@) =~= pre_lines.map_values(|l: Vec<u8>| l@).push(
            pre_cur,
        ));
        assert(pre_lines.map_values(|l: Vec<u8>| l@) + seq![pre_cur] =~= pre_lines.map_values(
            |l: Vec<u8>| l@,
        ).push(pre_cur));
    }
    lines
}

fn trim_line(line: &Vec<u8>) -> (r: Vec<u8>)
    ensures
        r@ == spec_trim(line@),
{
    let n = line.len();
    let mut start: usize = 0;
    assert(line@.skip(0) =~= line@);
    while start < n && blank_byte(line[start])
        invariant
            n == line@.len(),
            start <= n,
            trim_front(line@) == trim_front(line@.skip(start as int)),
        decreases n - start,
    {
        proof {
            assert(line@.skip(start as int).drop_first() =~= line@.skip(start as int + 1));
            assert(line@.skip(start as int)[0] == line@[start as int]);
        }
        start = start + 1;
    }
    proof {
        if start < n {
            assert(line@.skip(start as int)[0] == line@[start as int]);
        }
        assert(trim_front(line@) == line@.skip(start as int));
        assert(line@.skip(start as int) =~= line@.subrange(start as int, n as int));
    }
    let mut end: usize = n;
    while end > start && blank_byte(line[end - 1])
        invariant
            n == line@.len(),
            start <= end <= n,
            spec_trim(line@) == trim_back(line@.subrange(start as int, end as int)),
        decreases end,
    {
        proof {
            let sub = line@.subrange(start as int, end as int);
            assert(sub.last() == line@[end - 1]);
            assert(sub.drop_last() =~= line@.subrange(start as int, end as int - 1));
        }
        end = end - 1;
    }
    proof {
        let sub = line@.subrange(start as int, end as int);
        if end > start {
            assert(sub.last() == line@[end - 1]);
        }
        assert(spec_trim(line@) == sub);
    }
    let mut out: Vec<u8> = Vec::new();
    let mut j: usize = start;
    while j < end
        invariant
            start <= j <= end <= n,
            n == line@.len(),
            out@ =~= line@.subrange(start as int, j as int),
        decreases end - j,
    {
        out.push(line[j]);
        assert(out@ =~= line@.subrange(start as int, j as int + 1));
        j = j + 1;
    }
    assert(out@ =~= line@.subrange(start as int, end as int));
    out
}

/// Scans one trimmed line, appending each completed word to `words`.
/// On an invalid character the error is returned and the words pushed so
/// far are left for the caller to discard.
fn decode_line(t: &Vec<u8>, line_no: usize, words: &mut Vec<u16>) -> (r: Result<(), FdeError>)
    requires
        line_no >= 1,
    ensures
        match scan_line(t@, 0, line_no as int, 0u16, old(words)@) {
            Ok(ws) => r is Ok && final(words)@ == ws,
            Err(e) => r == Err::<(), FdeError>(e),
        },
{
    let n = t.len();
    let mut acc: u16 = 0;
    let mut i: usize = 0;
    while i < n
        invariant
            n == t@.len(),
            i <= n,
            line_no >= 1,
            scan_line(t@, 0, line_no as int, 0u16, old(words)@) == scan_line(
                t@,
                i as int,
                line_no as int,
                acc,
                words@,
            ),
        decreases n - i,
    {
        let b = t[i];
        if b == 95 {
            words.push(acc);
            acc = 0;
        } else if b == 32 || b == 9 {
            words.push(acc);
            return Ok(());
        } else {
            match nibble(b) {
                Some(nib) => {
                    acc = (acc << 4u16) | (nib as u16);
                },
                None => {
                    return Err(
                        FdeError::InvalidCharacter { ch: b, line: line_no, column: i + 1 },
                    );
                },
            }
        }
        i = i + 1;
    }
    words.push(acc);
    Ok(())
}

/// Decodes a whole bitstream text into its 16-bit configuration words:
/// lines are trimmed, blank lines are skipped, and the first invalid
/// character aborts the decode with its 1-based line and column.
pub fn decode_program_data(data: &[u8]) -> (r: Result<Vec<u16>, FdeError>)
    ensures
        match spec_decode(data@) {
            Ok(ws) => r is Ok && r->Ok_0@ == ws,
            Err(e) => r == Err::<Vec<u16>, FdeError>(e),
        },
{
    let lines = split_lines(data);
    let ghost line_views = lines@.map_values(|l: Vec<u8>| l@);
    let mut words: Vec<u16> = Vec::new();
    let m = lines.len();
    let mut k: usize = 0;
    while k < m
        invariant
            m == lines@.len(),
            k <= m,
            line_views == lines@.map_values(|l: Vec<u8>| l@),
            line_views == spec_lines(data@),
            spec_decode(data@) == decode_lines(line_views, k as int, words@),
        decreases m - k,
    {
        assert(line_views[k as int] == lines@[k as int]@);
        let t = trim_line(&lines[k]);
        if t.len() > 0 {
            let line_no = k + 1;
            let ghost pre_words = words@;
            match decode_line(&t, line_no, &mut words) {
                Ok(_) => {
                    assert(scan_line(t@, 0, k as int + 1, 0u16, pre_words) == Ok::<
                        Seq<u16>,
                        FdeError,
                    >(words@));
                },
                Err(e) => {
                    return Err(e);
                },
            }
        }
        k = k + 1;
    }
    Ok(words)
}

/// Holds a bitstream file's name and the program words its text decoded
/// to.
#[derive(Debug)]
pub struct ProgramDataReader {
    bitfile: String,
    program_data: Vec<u16>,
}

impl ProgramDataReader {
    pub closed spec fn spec_bitfile(&self) -> Seq<char> {
        self.bitfile@
    }

    pub closed spec fn spec_program_data(&self) -> Seq<u16> {
        self.program_data@
    }

    pub fn new(bitfile: &str) -> (r: Self)
        ensures
            r.spec_bitfile() == bitfile@,
            r.spec_program_data() == Seq::<u16>::empty(),
    {
        ProgramDataReader { bitfile: bitfile.to_owned(), program_data: Vec::new() }
    }

    /// Decodes the given bitstream text. On success the decoded words
    /// replace the held program data; on an invalid character nothing
    /// changes and the error carries the byte and its position.
    pub fn read(&mut self, data: &[u8]) -> (r: Result<(), FdeError>)
        ensures
            match spec_decode(data@) {
                Ok(ws) => r is Ok && final(self).spec_program_data() == ws
                    && final(self).spec_bitfile() == old(self).spec_bitfile(),
                Err(e) => r == Err::<(), FdeError>(e) && *final(self) == *old(self),
            },
    {
        match decode_program_data(data) {
            Ok(ws) => {
                self.program_data = ws;
                Ok(())
            },
            Err(e) => Err(e),
        }
    }

    /// The decoded program words.
    pub fn get_program_data(&self) -> (r: &Vec<u16>)
        ensures
            r@ == self.spec_program_data(),
    {
        &self.program_data
    }

    /// Remaps one ASCII hex digit to its nibble value.
    pub fn char_remap(&self, c: &u8) -> (r: Option<u8>)
        ensures
            r == spec_nibble(*c),
    {
        nibble(*c)
    }
}

} // verus!
