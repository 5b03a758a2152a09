//! The mount table: records, and the parser for the table's text.

use vstd::prelude::*;
use vstd::string::StrSliceExecFns;

verus! {

/// True for the characters that separate fields of a mount-table line:
/// the ASCII whitespace characters.
pub open spec fn is_ws(c: char) -> bool {
    c == ' ' || c == '\t' || c == '\n' || c == '\r' || c == '\x0c'
}

/// Decides whether a character separates two fields of a mount-table line.
fn ws_char(c: char) -> (r: bool)
    ensures
        r == is_ws(c),
{
    c == ' ' || c == '\t' || c == '\n' || c == '\r' || c == '\x0c'
}

/// The mathematical value of a mount record: every field as a sequence of
/// characters (options as a sequence of such sequences) or an integer.
#[verifier::ext_equal]
pub struct MountView {
    pub fs_spec: Seq<char>,
    pub mount_point: Seq<char>,
    pub fs_type: Seq<char>,
    pub mount_options: Seq<Seq<char>>,
    pub dump_fs_freq: u32,
    pub fsck_fs_passno: u32,
}

/// A mounted filesystem.
///
/// See `man fstab` for a detailed description of the fields.
#[derive(Debug, PartialEq, Eq, Hash, Clone)]
pub struct LinuxMount {
    /// The device or source that is mounted.
    pub fs_spec: String,
    /// The path the filesystem is mounted at.
    pub mount_point: String,
    /// The filesystem's type.
    pub fs_type: String,
    /// The mount options, in the order the table lists them.
    pub mount_options: Vec<String>,
    /// The dump frequency field.
    pub dump_fs_freq: u32,
    /// The fsck pass-order field.
    pub fsck_fs_passno: u32,
}

impl DeepView for LinuxMount {
    type V = MountView;

    open spec fn deep_view(&self) -> MountView {
        MountView {
            fs_spec: self.fs_spec@,
            mount_point: self.mount_point@,
            fs_type: self.fs_type@,
            mount_options: self.mount_options.deep_view(),
            dump_fs_freq: self.dump_fs_freq,
            fsck_fs_passno: self.fsck_fs_passno,
        }
    }
}

impl LinuxMount {
    /// An owned copy of the record, with the same value.
    pub fn duplicate(&self) -> (r: Self)
        ensures
            r.deep_view() == self.deep_view(),
    {
        let r = LinuxMount {
            fs_spec: self.fs_spec.clone(),
            mount_point: self.mount_point.clone(),
            fs_type: self.fs_type.clone(),
            mount_options: clone_options(&self.mount_options),
            dump_fs_freq: self.dump_fs_freq,
            fsck_fs_passno: self.fsck_fs_passno,
        };
        proof {
            assert(r.deep_view() =~= self.deep_view());
        }
        r
    }
}

/// An owned copy of an options list, with the same value.
fn clone_options(v: &Vec<String>) -> (r: Vec<String>)
    ensures
        r.deep_view() == v.deep_view(),
{
    let mut r: Vec<String> = Vec::new();
    let mut i: usize = 0;
    while i < v.len()
        invariant
            i <= v.len(),
            r@.len() == i,
            forall|j: int| 0 <= j < i ==> r@[j]@ == #[trigger] v@[j]@,
        decreases v.len() - i,
    {
        r.push(v[i].clone());
        i = i + 1;
    }
    proof {
        assert(r.deep_view() =~= v.deep_view());
    }
    r
}

/// Whether two options lists hold the same values.
fn options_eq(a: &Vec<String>, b: &Vec<String>) -> (r: bool)
    ensures
        r == (a.deep_view() == b.deep_view()),
{
    if a.len() != b.len() {
        proof {
            assert(a.deep_view().len() != b.deep_view().len());
        }
        return false;
    }
    let mut i: usize = 0;
    while i < a.len()
        invariant
            i <= a.len(),
            a@.len() == b@.len(),
            forall|j: int| 0 <= j < i ==> a@[j]@ == #[trigger] b@[j]@,
        decreases a.len() - i,
    {
        if !(a[i] == b[i]) {
            proof {
                assert(a.deep_view()[i as int] != b.deep_view()[i as int]);
            }
            return false;
        }
        i = i + 1;
    }
    proof {
        assert(a.deep_view() =~= b.deep_view());
    }
    true
}

/// Whether two records hold the same value in every field.
pub fn mount_eq(a: &LinuxMount, b: &LinuxMount) -> (r: bool)
    ensures
        r == (a.deep_view() == b.deep_view()),
{
    let r = a.fs_spec == b.fs_spec && a.mount_point == b.mount_point && a.fs_type == b.fs_type
        && a.dump_fs_freq == b.dump_fs_freq && a.fsck_fs_passno == b.fsck_fs_passno && options_eq(
        &a.mount_options,
        &b.mount_options,
    );
    proof {
        if r {
            assert(a.deep_view() =~= b.deep_view());
        }
    }
    r
}

/// True for a decimal digit.
pub open spec fn is_digit(c: char) -> bool {
    48 <= c as u32 && c as u32 <= 57
}

/// The value of a decimal digit.
pub open spec fn digit_val(c: char) -> u32 {
    (c as u32 - 48) as u32
}

/// Reads decimal digits into an accumulator; fails on a character that is not
/// a digit and on a value that does not fit the integer field's type.
pub open spec fn u32_rec(s: Seq<char>, acc: u32) -> Option<u32>
    decreases s.len(),
{
    if s.len() == 0 {
        Some(acc)
    } else if is_digit(s[0]) {
        if acc as int * 10 + digit_val(s[0]) as int <= u32::MAX as int {
            u32_rec(s.drop_first(), (acc as int * 10 + digit_val(s[0]) as int) as u32)
        } else {
            None
        }
    } else {
        None
    }
}

/// The non-negative integer a field denotes: an optional leading `+`, then at
/// least one decimal digit, and a value that fits the field's type.
pub open spec fn parse_u32(s: Seq<char>) -> Option<u32> {
    let body = if s.len() > 0 && s[0] == '+' {
        s.drop_first()
    } else {
        s
    };
    if body.len() == 0 {
        None
    } else {
        u32_rec(body, 0)
    }
}

/// Parses a numeric field of a mount-table line.
fn parse_u32_field(s: &str) -> (r: Option<u32>)
    ensures
        r == parse_u32(s@),
{
    let n = s.unicode_len();
    let mut i: usize = 0;
    if n > 0 && s.get_char(0) == '+' {
        i = 1;
        proof {
            assert(s@.drop_first() =~= s@.skip(1));
        }
    }
    if i >= n {
        return None;
    }
    proof {
        assert(s@.skip(0) =~= s@);
    }
    let ghost body = s@.skip(i as int);
    let mut acc: u32 = 0;
    while i < n
        invariant
            0 < n == s@.len(),
            i <= n,
            parse_u32(s@) == u32_rec(s@.skip(i as int), acc),
        decreases n - i,
    {
        let c = s.get_char(i);
        proof {
            assert(s@.skip(i as int)[0] == c);
            assert(s@.skip(i as int).drop_first() =~= s@.skip(i as int + 1));
        }
        let v = c as u32;
        if v < 48 || v > 57 {
            return None;
        }
        let next: u64 = acc as u64 * 10 + (v - 48) as u64;
        if next > u32::MAX as u64 {
            return None;
        }
        acc = next as u32;
        i = i + 1;
    }
    proof {
        assert(s@.skip(n as int) =~= Seq::<char>::empty());
    }
    Some(acc)
}

/// The whitespace-separated fields of a line, empty fields dropped: `cur` is
/// the part of the current field read so far.
pub open spec fn fields_rec(s: Seq<char>, cur: Seq<char>) -> Seq<Seq<char>>
    decreases s.len(),
{
    if s.len() == 0 {
        if cur.len() == 0 {
            Seq::empty()
        } else {
            seq![cur]
        }
    } else if is_ws(s[0]) {
        if cur.len() == 0 {
            fields_rec(s.drop_first(), Seq::empty())
        } else {
            seq![cur] + fields_rec(s.drop_first(), Seq::empty())
        }
    } else {
        fields_rec(s.drop_first(), cur.push(s[0]))
    }
}

/// The whitespace-separated fields of a line.
pub open spec fn fields_of(line: Seq<char>) -> Seq<Seq<char>> {
    fields_rec(line, Seq::empty())
}

/// The pieces of `s` between occurrences of `sep`, empty pieces kept:
/// `cur` is the part of the current piece read so far.
pub open spec fn split_rec(s: Seq<char>, sep: char, cur: Seq<char>) -> Seq<Seq<char>>
    decreases s.len(),
{
    if s.len() == 0 {
        seq![cur]
    } else if s[0] == sep {
        seq![cur] + split_rec(s.drop_first(), sep, Seq::empty())
    } else {
        split_rec(s.drop_first(), sep, cur.push(s[0]))
    }
}

/// The pieces of `s` between occurrences of `sep`, empty pieces kept.
pub open spec fn split_all(s: Seq<char>, sep: char) -> Seq<Seq<char>> {
    split_rec(s, sep, Seq::empty())
}

/// `line` without its leading whitespace.
pub open spec fn trim_start(line: Seq<char>) -> Seq<char>
    decreases line.len(),
{
    if line.len() == 0 {
        line
    } else if is_ws(line[0]) {
        trim_start(line.drop_first())
    } else {
        line
    }
}

/// True for a line the parser passes over: blank, or a comment.
pub open spec fn skippable(line: Seq<char>) -> bool {
    trim_start(line).len() == 0 || trim_start(line)[0] == '#'
}

/// Splits a line into its whitespace-separated fields.
fn split_fields(line: &str) -> (r: Vec<String>)
    ensures
        r.deep_view() == fields_of(line@),
{
    let n = line.unicode_len();
    let mut out: Vec<String> = Vec::new();
    let mut i: usize = 0;
    let mut start: usize = 0;
    proof {
        assert(line@.skip(0) =~= line@);
        assert(line@.subrange(0, 0) =~= Seq::<char>::empty());
    }
    while i < n
        invariant
            start <= i <= n == line@.len(),
            fields_of(line@) == out.deep_view() + fields_rec(
                line@.skip(i as int),
                line@.subrange(start as int, i as int),
            ),
        decreases n - i,
    {
        let c = line.get_char(i);
        proof {
            assert(line@.skip(i as int)[0] == c);
            assert(line@.skip(i as int).drop_first() =~= line@.skip(i as int + 1));
        }
        let ghost cur = line@.subrange(start as int, i as int);
        if ws_char(c) {
            if start < i {
                let tok = line.substring_char(start, i).to_owned();
                let ghost out0 = out.deep_view();
                out.push(tok);
                proof {
                    assert(out.deep_view() =~= out0.push(cur));
                    assert(out0.push(cur) + fields_rec(line@.skip(i as int + 1), Seq::empty())
                        =~= out0 + (seq![cur] + fields_rec(
                        line@.skip(i as int + 1),
                        Seq::empty(),
                    )));
                }
            }
            i = i + 1;
            start = i;
            proof {
                assert(line@.subrange(i as int, i as int) =~= Seq::<char>::empty());
            }
        } else {
            i = i + 1;
            proof {
                assert(line@.subrange(start as int, i as int) =~= cur.push(c));
            }
        }
    }
    proof {
        assert(line@.skip(n as int) =~= Seq::<char>::empty());
    }
    let ghost cur = line@.subrange(start as int, n as int);
    if start < n {
        let tok = line.substring_char(start, n).to_owned();
        let ghost out0 = out.deep_view();
        out.push(tok);
        proof {
            assert(out.deep_view() =~= out0.push(cur));
            assert(out0.push(cur) =~= out0 + seq![cur]);
        }
    } else {
        proof {
            assert(out.deep_view() + Seq::<Seq<char>>::empty() =~= out.deep_view());
        }
    }
    out
}

/// Splits `s` at every occurrence of `sep`, keeping empty pieces.
fn split_on(s: &str, sep: char) -> (r: Vec<String>)
    ensures
        r.deep_view() == split_all(s@, sep),
{
    let n = s.unicode_len();
    let mut out: Vec<String> = Vec::new();
    let mut i: usize = 0;
    let mut start: usize = 0;
    proof {
        assert(s@.skip(0) =~= s@);
        assert(s@.subrange(0, 0) =~= Seq::<char>::empty());
    }
    while i < n
        invariant
            start <= i <= n == s@.len(),
            split_all(s@, sep) == out.deep_view() + split_rec(
                s@.skip(i as int),
                sep,
                s@.subrange(start as int, i as int),
            ),
        decreases n - i,
    {
        let c = s.get_char(i);
        proof {
            assert(s@.skip(i as int)[0] == c);
            assert(s@.skip(i as int).drop_first() =~= s@.skip(i as int + 1));
        }
        let ghost cur = s@.subrange(start as int, i as int);
        if c == sep {
            let piece = s.substring_char(start, i).to_owned();
            let ghost out0 = out.deep_view();
            out.push(piece);
            i = i + 1;
            start = i;
            proof {
                assert(out.deep_view() =~= out0.push(cur));
                assert(s@.subrange(i as int, i as int) =~= Seq::<char>::empty());
                assert(out0.push(cur) + split_rec(s@.skip(i as int), sep, Seq::empty()) =~= out0 + (
                seq![cur] + split_rec(s@.skip(i as int), sep, Seq::empty())));
            }
        } else {
            i = i + 1;
            proof {
                assert(s@.subrange(start as int, i as int) =~= cur.push(c));
            }
        }
    }
    proof {
        assert(s@.skip(n as int) =~= Seq::<char>::empty());
    }
    let ghost cur = s@.subrange(start as int, n as int);
    let piece = s.substring_char(start, n).to_owned();
    let ghost out0 = out.deep_view();
    out.push(piece);
    proof {
        assert(out.deep_view() =~= out0.push(cur));
        assert(out0.push(cur) =~= out0 + seq![cur]);
    }
    out
}

/// Drops the leading whitespace of a line.
fn trim_ws_start<'a>(line: &'a str) -> (r: &'a str)
    ensures
        r@ == trim_start(line@),
{
    let n = line.unicode_len();
    let mut i: usize = 0;
    proof {
        assert(line@.skip(0) =~= line@);
    }
    while i < n
        invariant
            i <= n == line@.len(),
            trim_start(line@) == trim_start(line@.skip(i as int)),
        decreases n - i,
    {
        let c = line.get_char(i);
        proof {
            assert(line@.skip(i as int)[0] == c);
            assert(line@.skip(i as int).drop_first() =~= line@.skip(i as int + 1));
        }
        if !ws_char(c) {
            let r = line.substring_char(i, n);
            proof {
                assert(line@.skip(i as int) =~= line@.subrange(i as int, n as int));
            }
            return r;
        }
        i = i + 1;
    }
    proof {
        assert(line@.skip(n as int) =~= Seq::<char>::empty());
    }
    line.substring_char(n, n)
}

/// The record a mount-table line denotes: exactly six whitespace-separated
/// fields, the fourth split on `,` into the options, the fifth and sixth
/// non-negative integers.
pub open spec fn parse_line(line: Seq<char>) -> Option<MountView> {
    let f = fields_of(line);
    if f.len() == 6 {
        if parse_u32(f[4]) is Some && parse_u32(f[5]) is Some {
            Some(
                MountView {
                    fs_spec: f[0],
                    mount_point: f[1],
                    fs_type: f[2],
                    mount_options: split_all(f[3], ','),
                    dump_fs_freq: parse_u32(f[4]).unwrap(),
                    fsck_fs_passno: parse_u32(f[5]).unwrap(),
                },
            )
        } else {
            None
        }
    } else {
        None
    }
}

impl LinuxMount {
    /// Attempts to parse a line of the mount table.
    /// Returns `None` if the line does not denote a record.
    pub fn parse(line: &str) -> (r: Option<Self>)
        ensures
            r.deep_view() == parse_line(line@),
    {
        let fields = split_fields(line);
        if fields.len() != 6 {
            return None;
        }
        let dump_fs_freq = match parse_u32_field(fields[4].as_str()) {
            Some(d) => d,
            None => {
                return None;
            },
        };
        let fsck_fs_passno = match parse_u32_field(fields[5].as_str()) {
            Some(p) => p,
            None => {
                return None;
            },
        };
        let mount_options = split_on(fields[3].as_str(), ',');
        let m = LinuxMount {
            fs_spec: fields[0].clone(),
            mount_point: fields[1].clone(),
            fs_type: fields[2].clone(),
            mount_options,
            dump_fs_freq,
            fsck_fs_passno,
        };
        proof {
            assert(m.deep_view() =~= parse_line(line@).unwrap());
        }
        Some(m)
    }
}

/// Error while parsing the mount table.
#[derive(Debug)]
pub struct ParseError {
    /// The offending line, leading whitespace stripped.
    pub input: String,
}

impl ParseError {
    /// The error, described for a reader.
    pub fn message(&self) -> (r: String)
        ensures
            r@ == "invalid mount line: "@ + self.input@,
    {
        let mut r = String::new();
        r.append("invalid mount line: ");
        r.append(self.input.as_str());
        r
    }
}

/// Error while reading or parsing the mount table.
///
/// The reading itself happens outside this crate; a reader that fails hands
/// the `Io` variant on.
#[derive(Debug)]
pub enum ReadError {
    /// A line of the table was malformed.
    Parse(ParseError),
    /// The table could not be read.
    Io,
}

/// The records the mount-table text denotes, line by line; a line that is
/// blank or a comment is passed over; the first line that denotes no record
/// stops the parse, and is the error.
pub open spec fn parse_lines(ls: Seq<Seq<char>>) -> Result<Seq<MountView>, Seq<char>>
    decreases ls.len(),
{
    if ls.len() == 0 {
        Ok(Seq::empty())
    } else {
        let t = trim_start(ls[0]);
        if t.len() == 0 || t[0] == '#' {
            parse_lines(ls.drop_first())
        } else {
            match parse_line(t) {
                Some(m) => match parse_lines(ls.drop_first()) {
                    Ok(rest) => Ok(seq![m] + rest),
                    Err(e) => Err(e),
                },
                None => Err(t),
            }
        }
    }
}

/// The records the whole mount-table text denotes.
pub open spec fn parse_table(s: Seq<char>) -> Result<Seq<MountView>, Seq<char>> {
    parse_lines(split_all(s, '\n'))
}

/// `rest` with `done` in front of its records; an error passes through.
pub open spec fn prepend_parsed(
    done: Seq<MountView>,
    rest: Result<Seq<MountView>, Seq<char>>,
) -> Result<Seq<MountView>, Seq<char>> {
    match rest {
        Ok(r) => Ok(done + r),
        Err(e) => Err(e),
    }
}

/// Parses the content of the mount table, appending the records to `buf`.
/// On a malformed line nothing is appended.
pub fn parse_proc_mounts(content: &str, buf: &mut Vec<LinuxMount>) -> (r: Result<(), ParseError>)
    ensures
        match r {
            Ok(_) => parse_table(content@) is Ok && final(buf).deep_view() == old(buf).deep_view()
                + parse_table(content@)->Ok_0,
            Err(e) => parse_table(content@) == Err::<Seq<MountView>, _>(e.input@) && *final(buf)
                == *old(buf),
        },
{
    let lines = split_on(content, '\n');
    let ghost all = lines.deep_view();
    let mut parsed: Vec<LinuxMount> = Vec::new();
    let mut k: usize = 0;
    proof {
        assert(all.skip(0) =~= all);
    }
    while k < lines.len()
        invariant
            k <= lines@.len(),
            all == split_all(content@, '\n'),
            lines.deep_view() == all,
            lines@.len() == all.len(),
            parse_lines(all) == prepend_parsed(
                parsed.deep_view(),
                parse_lines(all.skip(k as int)),
            ),
            *buf == *old(buf),
        decreases lines@.len() - k,
    {
        proof {
            assert(all.skip(k as int)[0] == all[k as int]);
            assert(all.skip(k as int).drop_first() =~= all.skip(k as int + 1));
            assert(lines@[k as int]@ == all[k as int]);
        }
        let line = trim_ws_start(lines[k].as_str());
        let skip_it = line.is_empty() || line.get_char(0) == '#';
        if !skip_it {
            match LinuxMount::parse(line) {
                Some(m) => {
                    let ghost parsed0 = parsed.deep_view();
                    let ghost mv = m.deep_view();
                    parsed.push(m);
                    proof {
                        assert(parsed.deep_view() =~= parsed0.push(mv));
                        if parse_lines(all.skip(k as int + 1)) is Ok {
                            let rest = parse_lines(all.skip(k as int + 1))->Ok_0;
                            assert(parsed0.push(mv) + rest =~= parsed0 + (seq![mv] + rest));
                        }
                    }
                },
                None => {
                    return Err(ParseError { input: line.to_owned() });
                },
            }
        }
        k = k + 1;
    }
    proof {
        assert(all.skip(all.len() as int) =~= Seq::<Seq<char>>::empty());
        assert(parsed.deep_view() + Seq::<MountView>::empty() =~= parsed.deep_view());
    }
    let ghost buf0 = buf.deep_view();
    let ghost add = parsed.deep_view();
    buf.append(&mut parsed);
    proof {
        assert(buf.deep_view() =~= buf0 + add);
        assert((buf0 + add).skip(buf0.len() as int) =~= add);
        assert((buf0 + add).take(buf0.len() as int) =~= buf0);
    }
    Ok(())
}

} // verus!
