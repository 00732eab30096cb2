//! The record codec: both stores hold comma-delimited fields on
//! newline-separated lines. Encoding and parsing are verified down to the
//! character level, and an encoded log scans back to the records it was
//! built from.
use vstd::prelude::*;
use vstd::string::*;

use crate::numfmt::{dec_parses, dec_str, dec_val, parse_u64, dec_u64};
use crate::record::{ActiveTimer, CompletedInterval, ParseError};

verus! {

/// Splits `s` at every occurrence of `sep`; the separators themselves are
/// dropped. Always at least one piece: splitting the empty string gives one
/// empty piece.
pub open spec fn split_on(s: Seq<char>, sep: char) -> Seq<Seq<char>>
    decreases s.len(),
{
    if s.len() == 0 {
        seq![Seq::<char>::empty()]
    } else if s.last() == sep {
        split_on(s.drop_last(), sep).push(Seq::<char>::empty())
    } else {
        let rest = split_on(s.drop_last(), sep);
        rest.update(rest.len() - 1, rest.last().push(s.last()))
    }
}

pub proof fn lemma_split_len(s: Seq<char>, sep: char)
    ensures
        split_on(s, sep).len() >= 1,
    decreases s.len(),
{
    if s.len() > 0 {
        lemma_split_len(s.drop_last(), sep);
    }
}

/// A separator-free string splits into just itself.
pub proof fn lemma_split_no_sep(s: Seq<char>, sep: char)
    requires
        forall|i: int| 0 <= i < s.len() ==> s[i] != sep,
    ensures
        split_on(s, sep) =~~= seq![s],
    decreases s.len(),
{
    if s.len() == 0 {
        assert(split_on(s, sep) =~~= seq![s]);
    } else {
        lemma_split_no_sep(s.drop_last(), sep);
        assert(s.drop_last().push(s.last()) =~= s);
    }
}

/// Splitting at a separator between a separator-free head and any tail
/// yields the head, then the pieces of the tail.
pub proof fn lemma_split_concat(a: Seq<char>, b: Seq<char>, sep: char)
    requires
        forall|i: int| 0 <= i < a.len() ==> a[i] != sep,
    ensures
        split_on(a + seq![sep] + b, sep) =~~= seq![a] + split_on(b, sep),
    decreases b.len(),
{
    lemma_split_len(b, sep);
    if b.len() == 0 {
        lemma_split_no_sep(a, sep);
        assert((a + seq![sep] + b).drop_last() =~= a);
        assert((a + seq![sep] + b).last() == sep);
    } else {
        lemma_split_concat(a, b.drop_last(), sep);
        lemma_split_len(b.drop_last(), sep);
        assert((a + seq![sep] + b).drop_last() =~= a + seq![sep] + b.drop_last());
        assert((a + seq![sep] + b).last() == b.last());
        if b.last() == sep {
            assert(split_on(a + seq![sep] + b, sep) =~~= seq![a] + split_on(b, sep));
        } else {
            let rest = split_on(b.drop_last(), sep);
            assert((seq![a] + rest).last() == rest.last());
            assert(split_on(a + seq![sep] + b, sep) =~~= seq![a] + split_on(b, sep));
        }
    }
}

/// The views of a sequence of owned strings.
pub open spec fn views_of(v: Seq<String>) -> Seq<Seq<char>> {
    Seq::new(v.len(), |i: int| v[i]@)
}

/// Splits a string at every occurrence of `sep`.
pub fn split_text(s: &str, sep: char) -> (r: Vec<String>)
    ensures
        views_of(r@) == split_on(s@, sep),
{
    let n = s.unicode_len();
    let mut fields: Vec<String> = Vec::new();
    let mut start: usize = 0;
    let mut i: usize = 0;
    while i < n
        invariant
            0 <= start <= i <= n == s@.len(),
            views_of(fields@).push(s@.subrange(start as int, i as int)) =~~= split_on(
                s@.take(i as int),
                sep,
            ),
        decreases n - i,
    {
        proof {
            assert(s@.take(i + 1).drop_last() =~= s@.take(i as int));
            assert(s@.take(i + 1).last() == s@[i as int]);
        }
        if s.get_char(i) == sep {
            let piece = s.substring_char(start, i).to_owned();
            fields.push(piece);
            proof {
                assert(views_of(fields@) =~~= views_of(fields@.drop_last()).push(
                    s@.subrange(start as int, i as int),
                ));
                assert(s@.subrange(i + 1, i + 1) =~= Seq::<char>::empty());
            }
            start = i + 1;
        } else {
            proof {
                let x = split_on(s@.take(i as int), sep);
                assert(x.last() == s@.subrange(start as int, i as int));
                assert(s@.subrange(start as int, i as int).push(s@[i as int]) =~= s@.subrange(
                    start as int,
                    i + 1,
                ));
                assert(x.update(x.len() - 1, x.last().push(s@[i as int])) =~~= views_of(
                    fields@,
                ).push(s@.subrange(start as int, i + 1)));
            }
        }
        i = i + 1;
    }
    let piece = s.substring_char(start, n).to_owned();
    fields.push(piece);
    proof {
        assert(s@.take(n as int) =~= s@);
        assert(views_of(fields@) =~~= views_of(fields@.drop_last()).push(
            s@.subrange(start as int, n as int),
        ));
    }
    fields
}

/// One log line for a completed interval, without its line break.
pub open spec fn interval_line(c: CompletedInterval) -> Seq<char> {
    c.project_code@ + seq![','] + dec_str(c.start_time as nat) + seq![','] + dec_str(
        c.end_time as nat,
    ) + seq![','] + dec_str(c.duration as nat) + seq![','] + c.task@
}

/// The line of the active-timer record, without its line break.
pub open spec fn timer_line(t: ActiveTimer) -> Seq<char> {
    dec_str(t.start_time as nat) + seq![','] + t.project_code@ + seq![','] + t.task@
}

/// A line the interval parser accepts: five comma-separated fields, the
/// three numeric ones plain digit strings in `u64` range.
pub open spec fn line_parses(s: Seq<char>) -> bool {
    let f = split_on(s, ',');
    f.len() == 5 && dec_parses(f[1]) && dec_parses(f[2]) && dec_parses(f[3])
}

/// The record the interval parser reads out of an accepted line.
pub open spec fn parses_to(s: Seq<char>, c: CompletedInterval) -> bool {
    let f = split_on(s, ',');
    &&& line_parses(s)
    &&& c.project_code@ == f[0]
    &&& c.start_time as int == dec_val(f[1])
    &&& c.end_time as int == dec_val(f[2])
    &&& c.duration as int == dec_val(f[3])
    &&& c.task@ == f[4]
}

/// A line the timer parser accepts: three comma-separated fields, the first
/// a plain digit string in `u64` range.
pub open spec fn timer_line_parses(s: Seq<char>) -> bool {
    let f = split_on(s, ',');
    f.len() == 3 && dec_parses(f[0])
}

/// The record the timer parser reads out of an accepted line.
pub open spec fn timer_parses_to(s: Seq<char>, t: ActiveTimer) -> bool {
    let f = split_on(s, ',');
    &&& timer_line_parses(s)
    &&& t.start_time as int == dec_val(f[0])
    &&& t.project_code@ == f[1]
    &&& t.task@ == f[2]
}

/// Encodes one completed interval as its log line plus a line break.
pub fn encode_interval(c: &CompletedInterval) -> (r: String)
    ensures
        r@ == interval_line(*c) + seq!['\n'],
{
    proof {
        reveal_strlit(",");
        reveal_strlit("\n");
    }
    let mut s = c.project_code.clone();
    s.append(",");
    s.append(dec_u64(c.start_time).as_str());
    s.append(",");
    s.append(dec_u64(c.end_time).as_str());
    s.append(",");
    s.append(dec_u64(c.duration).as_str());
    s.append(",");
    s.append(c.task.as_str());
    s.append("\n");
    proof {
        assert(s@ =~= interval_line(*c) + seq!['\n']);
    }
    s
}

/// Encodes the active-timer record as its line plus a line break.
pub fn encode_timer(t: &ActiveTimer) -> (r: String)
    ensures
        r@ == timer_line(*t) + seq!['\n'],
{
    proof {
        reveal_strlit(",");
        reveal_strlit("\n");
    }
    let mut s = dec_u64(t.start_time);
    s.append(",");
    s.append(t.project_code.as_str());
    s.append(",");
    s.append(t.task.as_str());
    s.append("\n");
    proof {
        assert(s@ =~= timer_line(*t) + seq!['\n']);
    }
    s
}

/// Parses one log line into a completed interval.
pub fn parse_interval(line: &str) -> (r: Result<CompletedInterval, ParseError>)
    ensures
        r is Ok <==> line_parses(line@),
        r is Ok ==> parses_to(line@, r->Ok_0),
{
    let fields = split_text(line, ',');
    proof {
        assert(fields@.len() == views_of(fields@).len());
    }
    if fields.len() != 5 {
        return Err(ParseError::CorruptRecord);
    }
    proof {
        assert(views_of(fields@)[1] == fields@[1]@);
        assert(views_of(fields@)[2] == fields@[2]@);
        assert(views_of(fields@)[3] == fields@[3]@);
        assert(views_of(fields@)[0] == fields@[0]@);
        assert(views_of(fields@)[4] == fields@[4]@);
    }
    let start_time = match parse_u64(fields[1].as_str()) {
        Ok(v) => v,
        Err(e) => {
            return Err(e);
        },
    };
    let end_time = match parse_u64(fields[2].as_str()) {
        Ok(v) => v,
        Err(e) => {
            return Err(e);
        },
    };
    let duration = match parse_u64(fields[3].as_str()) {
        Ok(v) => v,
        Err(e) => {
            return Err(e);
        },
    };
    Ok(
        CompletedInterval {
            project_code: fields[0].clone(),
            start_time,
            end_time,
            duration,
            task: fields[4].clone(),
        },
    )
}

/// Parses the active-timer line.
pub fn parse_timer(line: &str) -> (r: Result<ActiveTimer, ParseError>)
    ensures
        r is Ok <==> timer_line_parses(line@),
        r is Ok ==> timer_parses_to(line@, r->Ok_0),
{
    let fields = split_text(line, ',');
    proof {
        assert(fields@.len() == views_of(fields@).len());
    }
    if fields.len() != 3 {
        return Err(ParseError::CorruptRecord);
    }
    proof {
        assert(views_of(fields@)[0] == fields@[0]@);
        assert(views_of(fields@)[1] == fields@[1]@);
        assert(views_of(fields@)[2] == fields@[2]@);
    }
    let start_time = match parse_u64(fields[0].as_str()) {
        Ok(v) => v,
        Err(e) => {
            return Err(e);
        },
    };
    Ok(ActiveTimer { start_time, project_code: fields[1].clone(), task: fields[2].clone() })
}

/// The header row written once when the log store is first created.
pub open spec fn header_text() -> Seq<char> {
    "project_code,start_time,end_time,duration,task"@
}

/// The header row as a string.
pub fn header() -> (r: &'static str)
    ensures
        r@ == header_text(),
{
    "project_code,start_time,end_time,duration,task"
}

proof fn lemma_header_clean()
    ensures
        header_text().len() > 0,
        forall|i: int| 0 <= i < header_text().len() ==> header_text()[i] != '\n',
{
    reveal_strlit("project_code,start_time,end_time,duration,task");
}

/// The log lines of a sequence of intervals, each closed by a line break.
pub open spec fn records_text(log: Seq<CompletedInterval>) -> Seq<char>
    decreases log.len(),
{
    if log.len() == 0 {
        Seq::<char>::empty()
    } else {
        interval_line(log[0]) + seq!['\n'] + records_text(log.drop_first())
    }
}

/// The full text of a freshly written log store: the header row, then one
/// line per interval, in append order.
pub open spec fn log_text(log: Seq<CompletedInterval>) -> Seq<char> {
    header_text() + seq!['\n'] + records_text(log)
}

/// Appending one record appends one line.
pub proof fn lemma_records_snoc(log: Seq<CompletedInterval>, c: CompletedInterval)
    ensures
        records_text(log.push(c)) == records_text(log) + interval_line(c) + seq!['\n'],
    decreases log.len(),
{
    if log.len() == 0 {
        assert(log.push(c)[0] == c);
        assert(log.push(c).drop_first() =~= log);
        assert(records_text(log.push(c)) =~= records_text(log) + interval_line(c) + seq!['\n']);
    } else {
        assert(log.push(c)[0] == log[0]);
        assert(log.push(c).drop_first() =~= log.drop_first().push(c));
        lemma_records_snoc(log.drop_first(), c);
        assert(records_text(log.push(c)) =~= records_text(log) + interval_line(c) + seq!['\n']);
    }
}

/// The non-empty lines among `ls`, in order.
pub open spec fn keep_nonempty(ls: Seq<Seq<char>>) -> Seq<Seq<char>>
    decreases ls.len(),
{
    if ls.len() == 0 {
        Seq::<Seq<char>>::empty()
    } else if ls.last().len() > 0 {
        keep_nonempty(ls.drop_last()).push(ls.last())
    } else {
        keep_nonempty(ls.drop_last())
    }
}

pub proof fn lemma_keep_nonempty_concat(a: Seq<Seq<char>>, b: Seq<Seq<char>>)
    ensures
        keep_nonempty(a + b) == keep_nonempty(a) + keep_nonempty(b),
    decreases b.len(),
{
    if b.len() == 0 {
        assert(a + b =~= a);
        assert(keep_nonempty(a) + keep_nonempty(b) =~~= keep_nonempty(a));
    } else {
        lemma_keep_nonempty_concat(a, b.drop_last());
        assert((a + b).drop_last() =~= a + b.drop_last());
        assert((a + b).last() == b.last());
        if b.last().len() > 0 {
            assert(keep_nonempty(a + b) =~~= keep_nonempty(a) + keep_nonempty(b));
        } else {
            assert(keep_nonempty(a + b) =~~= keep_nonempty(a) + keep_nonempty(b));
        }
    }
}

pub proof fn lemma_keep_all_nonempty(ls: Seq<Seq<char>>)
    requires
        forall|i: int| 0 <= i < ls.len() ==> ls[i].len() > 0,
    ensures
        keep_nonempty(ls) == ls,
    decreases ls.len(),
{
    if ls.len() == 0 {
        assert(keep_nonempty(ls) =~~= ls);
    } else {
        lemma_keep_all_nonempty(ls.drop_last());
        assert(keep_nonempty(ls) =~~= ls);
    }
}

/// The data rows of a log store's text: the non-empty lines, minus the
/// header row.
pub open spec fn data_rows(s: Seq<char>) -> Seq<Seq<char>> {
    let ne = keep_nonempty(split_on(s, '\n'));
    if ne.len() == 0 {
        Seq::<Seq<char>>::empty()
    } else {
        ne.drop_first()
    }
}

/// Whether a scan of the whole text succeeds: every data row parses.
pub open spec fn scan_ok(s: Seq<char>) -> bool {
    forall|i: int| 0 <= i < data_rows(s).len() ==> line_parses(#[trigger] data_rows(s)[i])
}

/// Writes a whole log store: header row first, then every interval on its
/// own line.
pub fn encode_log(log: &Vec<CompletedInterval>) -> (r: String)
    ensures
        r@ == log_text(log@),
{
    proof {
        reveal_strlit("\n");
    }
    let mut out = String::from_str(header());
    out.append("\n");
    let mut i: usize = 0;
    while i < log.len()
        invariant
            0 <= i <= log@.len(),
            out@ == log_text(log@.take(i as int)),
        decreases log@.len() - i,
    {
        let line = encode_interval(&log[i]);
        out.append(line.as_str());
        proof {
            assert(log@.take(i + 1) =~= log@.take(i as int).push(log@[i as int]));
            lemma_records_snoc(log@.take(i as int), log@[i as int]);
            assert(out@ =~= log_text(log@.take(i + 1)));
        }
        i = i + 1;
    }
    proof {
        assert(log@.take(log@.len() as int) =~= log@);
    }
    out
}

/// Scans a log store's text: skips the header row and empty lines, parses
/// every other line in file order, and stops at the first malformed row.
pub fn scan_log(text: &str) -> (r: Result<Vec<CompletedInterval>, ParseError>)
    ensures
        r is Ok <==> scan_ok(text@),
        r is Ok ==> r->Ok_0@.len() == data_rows(text@).len(),
        r is Ok ==> forall|i: int|
            0 <= i < r->Ok_0@.len() ==> parses_to(#[trigger] data_rows(text@)[i], r->Ok_0@[i]),
{
    let lines = split_text(text, '\n');
    let ghost all = split_on(text@, '\n');
    let mut out: Vec<CompletedInterval> = Vec::new();
    let mut seen_header = false;
    let mut j: usize = 0;
    proof {
        lemma_keep_nonempty_concat(all.take(j as int), all.skip(j as int));
        assert(all.take(j as int) + all.skip(j as int) =~= all);
    }
    while j < lines.len()
        invariant
            0 <= j <= lines@.len(),
            views_of(lines@) == all,
            all == split_on(text@, '\n'),
            keep_nonempty(all) == keep_nonempty(all.take(j as int)) + keep_nonempty(
                all.skip(j as int),
            ),
            seen_header <==> keep_nonempty(all.take(j as int)).len() >= 1,
            !seen_header ==> out@.len() == 0,
            seen_header ==> out@.len() + 1 == keep_nonempty(all.take(j as int)).len(),
            forall|i: int|
                0 <= i < out@.len() ==> parses_to(
                    #[trigger] keep_nonempty(all.take(j as int))[i + 1],
                    out@[i],
                ),
        decreases lines@.len() - j,
    {
        proof {
            assert(all.take(j + 1).drop_last() =~= all.take(j as int));
            assert(all.take(j + 1).last() == all[j as int]);
            assert(views_of(lines@)[j as int] == lines@[j as int]@);
        }
        let line = &lines[j];
        if !line.as_str().is_empty() {
            if !seen_header {
                seen_header = true;
            } else {
                match parse_interval(line.as_str()) {
                    Ok(c) => {
                        out.push(c);
                    },
                    Err(e) => {
                        proof {
                            let ne = keep_nonempty(all);
                            assert(keep_nonempty(all.take(j + 1)).last() == all[j as int]);
                            assert(ne.len() >= keep_nonempty(all.take(j + 1)).len()) by {
                                lemma_keep_nonempty_concat(all.take(j + 1), all.skip(j + 1));
                                assert(all.take(j + 1) + all.skip(j + 1) =~= all);
                            }
                            assert(ne[out@.len() as int + 1] == all[j as int]) by {
                                lemma_keep_nonempty_concat(all.take(j + 1), all.skip(j + 1));
                                assert(all.take(j + 1) + all.skip(j + 1) =~= all);
                            }
                            assert(data_rows(text@)[out@.len() as int] == all[j as int]);
                            assert(!line_parses(data_rows(text@)[out@.len() as int]));
                        }
                        return Err(e);
                    },
                }
            }
        }
        proof {
            lemma_keep_nonempty_concat(all.take(j + 1), all.skip(j + 1));
            assert(all.take(j + 1) + all.skip(j + 1) =~= all);
        }
        j = j + 1;
    }
    proof {
        assert(all.take(j as int) =~= all);
        assert(all.skip(j as int) =~= Seq::<Seq<char>>::empty());
        if out@.len() > 0 || seen_header {
            assert(keep_nonempty(all).len() >= 1);
            assert(data_rows(text@) =~~= keep_nonempty(all).drop_first());
        }
        assert(out@.len() == data_rows(text@).len());
        assert(forall|i: int|
            0 <= i < out@.len() ==> parses_to(#[trigger] data_rows(text@)[i], out@[i]));
    }
    Ok(out)
}

/// The non-empty lines of the active-timer store's text.
pub open spec fn timer_rows(s: Seq<char>) -> Seq<Seq<char>> {
    keep_nonempty(split_on(s, '\n'))
}

/// Whether the active-timer store's text holds exactly its single record,
/// well-formed.
pub open spec fn timer_scan_ok(s: Seq<char>) -> bool {
    timer_rows(s).len() == 1 && timer_line_parses(timer_rows(s)[0])
}

/// Reads the active-timer store: exactly one non-empty line, parsed as the
/// single record; anything else is corrupt.
pub fn scan_timer(text: &str) -> (r: Result<ActiveTimer, ParseError>)
    ensures
        r is Ok <==> timer_scan_ok(text@),
        r is Ok ==> timer_parses_to(timer_rows(text@)[0], r->Ok_0),
{
    let lines = split_text(text, '\n');
    let ghost all = split_on(text@, '\n');
    let mut kept: Vec<String> = Vec::new();
    let mut j: usize = 0;
    while j < lines.len()
        invariant
            0 <= j <= lines@.len(),
            views_of(lines@) == all,
            all == split_on(text@, '\n'),
            views_of(kept@) =~~= keep_nonempty(all.take(j as int)),
        decreases lines@.len() - j,
    {
        proof {
            assert(all.take(j + 1).drop_last() =~= all.take(j as int));
            assert(all.take(j + 1).last() == all[j as int]);
            assert(views_of(lines@)[j as int] == lines@[j as int]@);
        }
        let line = &lines[j];
        if !line.as_str().is_empty() {
            kept.push(line.clone());
            proof {
                assert(views_of(kept@) =~~= views_of(kept@.drop_last()).push(kept@.last()@));
            }
        }
        j = j + 1;
    }
    proof {
        assert(all.take(j as int) =~= all);
    }
    if kept.len() != 1 {
        return Err(ParseError::CorruptRecord);
    }
    proof {
        assert(views_of(kept@)[0] == kept@[0]@);
    }
    parse_timer(kept[0].as_str())
}

/// The timer line never holds a line break.
proof fn lemma_timer_line_clean(t: ActiveTimer)
    requires
        t.wf(),
    ensures
        forall|i: int| 0 <= i < timer_line(t).len() ==> timer_line(t)[i] != '\n',
        timer_line(t).len() > 0,
{
    let d0 = dec_str(t.start_time as nat);
    crate::numfmt::lemma_dec_str_digits(t.start_time as nat);
    crate::numfmt::lemma_digits_field_ok(d0);
    lemma_no_char_concat(d0, seq![','], '\n');
    lemma_no_char_concat(d0 + seq![','], t.project_code@, '\n');
    lemma_no_char_concat(d0 + seq![','] + t.project_code@, seq![','], '\n');
    lemma_no_char_concat(d0 + seq![','] + t.project_code@ + seq![','], t.task@, '\n');
}

/// The encoded active-timer store scans back to its very record.
pub proof fn lemma_timer_scan_round_trip(t: ActiveTimer)
    ensures
        t.wf() ==> timer_scan_ok(timer_line(t) + seq!['\n']),
        t.wf() ==> timer_parses_to(timer_rows(timer_line(t) + seq!['\n'])[0], t),
{
    if t.wf() {
        lemma_timer_line_clean(t);
        lemma_split_concat(timer_line(t), Seq::<char>::empty(), '\n');
        assert(split_on(timer_line(t) + seq!['\n'], '\n') =~~= seq![
            timer_line(t),
            Seq::<char>::empty(),
        ]) by {
            assert(timer_line(t) + seq!['\n'] + Seq::<char>::empty() =~= timer_line(t)
                + seq!['\n']);
            assert(split_on(Seq::<char>::empty(), '\n') =~~= seq![Seq::<char>::empty()]);
        }
        lemma_keep_nonempty_concat(seq![timer_line(t)], seq![Seq::<char>::empty()]);
        assert(seq![timer_line(t)] + seq![Seq::<char>::empty()] =~~= seq![
            timer_line(t),
            Seq::<char>::empty(),
        ]);
        assert(keep_nonempty(seq![Seq::<char>::empty()]) =~~= Seq::<Seq<char>>::empty()) by {
            let one = seq![Seq::<char>::empty()];
            assert(one.last() =~= Seq::<char>::empty());
            assert(one.drop_last() =~~= Seq::<Seq<char>>::empty());
            assert(keep_nonempty(one) == keep_nonempty(one.drop_last()));
            assert(keep_nonempty(Seq::<Seq<char>>::empty()) =~~= Seq::<Seq<char>>::empty());
        }
        lemma_keep_all_nonempty(seq![timer_line(t)]);
        assert(timer_rows(timer_line(t) + seq!['\n']) =~~= seq![timer_line(t)]);
        lemma_timer_round_trip(t);
    }
}

/// A string free of some character stays free of it under concatenation.
proof fn lemma_no_char_concat(a: Seq<char>, b: Seq<char>, ch: char)
    requires
        forall|i: int| 0 <= i < a.len() ==> a[i] != ch,
        forall|i: int| 0 <= i < b.len() ==> b[i] != ch,
    ensures
        forall|i: int| 0 <= i < (a + b).len() ==> (a + b)[i] != ch,
{
    assert forall|i: int| 0 <= i < (a + b).len() implies (a + b)[i] != ch by {
        if i < a.len() {
            assert((a + b)[i] == a[i]);
        } else {
            assert((a + b)[i] == b[i - a.len()]);
        }
    }
}

/// A log line never holds a line break: its fields may not, digits do not,
/// and the delimiter is a comma.
proof fn lemma_interval_line_clean(c: CompletedInterval)
    requires
        c.fields_ok(),
    ensures
        forall|i: int| 0 <= i < interval_line(c).len() ==> interval_line(c)[i] != '\n',
        interval_line(c).len() > 0,
{
    let pc = c.project_code@;
    let d1 = dec_str(c.start_time as nat);
    let d2 = dec_str(c.end_time as nat);
    let d3 = dec_str(c.duration as nat);
    let tk = c.task@;
    crate::numfmt::lemma_dec_str_digits(c.start_time as nat);
    crate::numfmt::lemma_dec_str_digits(c.end_time as nat);
    crate::numfmt::lemma_dec_str_digits(c.duration as nat);
    crate::numfmt::lemma_digits_field_ok(d1);
    crate::numfmt::lemma_digits_field_ok(d2);
    crate::numfmt::lemma_digits_field_ok(d3);
    lemma_no_char_concat(pc, seq![','], '\n');
    lemma_no_char_concat(pc + seq![','], d1, '\n');
    lemma_no_char_concat(pc + seq![','] + d1, seq![','], '\n');
    lemma_no_char_concat(pc + seq![','] + d1 + seq![','], d2, '\n');
    lemma_no_char_concat(pc + seq![','] + d1 + seq![','] + d2, seq![','], '\n');
    lemma_no_char_concat(pc + seq![','] + d1 + seq![','] + d2 + seq![','], d3, '\n');
    lemma_no_char_concat(pc + seq![','] + d1 + seq![','] + d2 + seq![','] + d3, seq![','], '\n');
    lemma_no_char_concat(
        pc + seq![','] + d1 + seq![','] + d2 + seq![','] + d3 + seq![','],
        tk,
        '\n',
    );
}

/// The encoded line of a well-formed interval parses back to its very
/// fields.
pub proof fn lemma_interval_round_trip(c: CompletedInterval)
    requires
        c.fields_ok(),
    ensures
        line_parses(interval_line(c)),
        parses_to(interval_line(c), c),
{
    let pc = c.project_code@;
    let d1 = dec_str(c.start_time as nat);
    let d2 = dec_str(c.end_time as nat);
    let d3 = dec_str(c.duration as nat);
    let tk = c.task@;
    crate::numfmt::lemma_dec_str_digits(c.start_time as nat);
    crate::numfmt::lemma_dec_str_digits(c.end_time as nat);
    crate::numfmt::lemma_dec_str_digits(c.duration as nat);
    crate::numfmt::lemma_dec_val_of_dec_str(c.start_time as nat);
    crate::numfmt::lemma_dec_val_of_dec_str(c.end_time as nat);
    crate::numfmt::lemma_dec_val_of_dec_str(c.duration as nat);
    let r4 = tk;
    let r3 = d3 + seq![','] + r4;
    let r2 = d2 + seq![','] + r3;
    let r1 = d1 + seq![','] + r2;
    assert(interval_line(c) =~= pc + seq![','] + r1);
    lemma_split_concat(pc, r1, ',');
    lemma_split_concat(d1, r2, ',');
    lemma_split_concat(d2, r3, ',');
    lemma_split_concat(d3, r4, ',');
    lemma_split_no_sep(tk, ',');
    assert(split_on(interval_line(c), ',') =~~= seq![pc, d1, d2, d3, tk]);
}

/// The encoded line of a well-formed active timer parses back to its very
/// fields.
pub proof fn lemma_timer_round_trip(t: ActiveTimer)
    requires
        t.wf(),
    ensures
        timer_line_parses(timer_line(t)),
        timer_parses_to(timer_line(t), t),
{
    let d0 = dec_str(t.start_time as nat);
    let pc = t.project_code@;
    let tk = t.task@;
    crate::numfmt::lemma_dec_str_digits(t.start_time as nat);
    crate::numfmt::lemma_dec_val_of_dec_str(t.start_time as nat);
    crate::numfmt::lemma_digits_field_ok(d0);
    let r2 = tk;
    let r1 = pc + seq![','] + r2;
    assert(timer_line(t) =~= d0 + seq![','] + r1);
    lemma_split_concat(d0, r1, ',');
    lemma_split_concat(pc, r2, ',');
    lemma_split_no_sep(tk, ',');
    assert(split_on(timer_line(t), ',') =~~= seq![d0, pc, tk]);
}

/// The lines a freshly written log splits into: the header row, one line per
/// record, and the empty piece after the final line break.
proof fn lemma_log_text_lines(log: Seq<CompletedInterval>)
    requires
        forall|i: int| 0 <= i < log.len() ==> (#[trigger] log[i]).fields_ok(),
    ensures
        split_on(records_text(log), '\n') =~~= Seq::new(log.len(), |i: int| interval_line(log[i])).push(
            Seq::<char>::empty(),
        ),
    decreases log.len(),
{
    if log.len() == 0 {
        assert(split_on(records_text(log), '\n') =~~= Seq::new(
            log.len(),
            |i: int| interval_line(log[i]),
        ).push(Seq::<char>::empty()));
    } else {
        assert(log.drop_first().len() == log.len() - 1);
        assert(forall|i: int|
            0 <= i < log.drop_first().len() ==> (#[trigger] log.drop_first()[i]).fields_ok()) by {
            assert(forall|i: int|
                0 <= i < log.drop_first().len() ==> log.drop_first()[i] == log[i + 1]);
        }
        lemma_log_text_lines(log.drop_first());
        lemma_interval_line_clean(log[0]);
        lemma_split_concat(interval_line(log[0]), records_text(log.drop_first()), '\n');
        assert(records_text(log) == interval_line(log[0]) + seq!['\n'] + records_text(
            log.drop_first(),
        ));
        assert(split_on(records_text(log), '\n') =~~= Seq::new(
            log.len(),
            |i: int| interval_line(log[i]),
        ).push(Seq::<char>::empty()));
    }
}

/// Writing a log and scanning its text yields the same records, in the same
/// order, with identical field values: every data row of the text parses,
/// and row `i` parses exactly to record `i`.
pub proof fn lemma_log_round_trip(log: Seq<CompletedInterval>)
    requires
        forall|i: int| 0 <= i < log.len() ==> (#[trigger] log[i]).fields_ok(),
    ensures
        scan_ok(log_text(log)),
        data_rows(log_text(log)).len() == log.len(),
        forall|i: int| 0 <= i < log.len() ==> parses_to(data_rows(log_text(log))[i], log[i]),
{
    let lines = Seq::new(log.len(), |i: int| interval_line(log[i]));
    lemma_header_clean();
    lemma_split_concat(header_text(), records_text(log), '\n');
    lemma_log_text_lines(log);
    assert(split_on(log_text(log), '\n') =~~= seq![header_text()] + lines.push(
        Seq::<char>::empty(),
    ));
    lemma_keep_nonempty_concat(seq![header_text()] + lines, seq![Seq::<char>::empty()]);
    assert(seq![header_text()] + lines.push(Seq::<char>::empty()) =~~= (seq![header_text()]
        + lines) + seq![Seq::<char>::empty()]);
    assert(keep_nonempty(seq![Seq::<char>::empty()]) =~~= Seq::<Seq<char>>::empty()) by {
        let one = seq![Seq::<char>::empty()];
        assert(one.last() =~= Seq::<char>::empty());
        assert(one.last().len() == 0);
        assert(one.drop_last() =~~= Seq::<Seq<char>>::empty());
        assert(keep_nonempty(one) == keep_nonempty(one.drop_last()));
        assert(keep_nonempty(Seq::<Seq<char>>::empty()) =~~= Seq::<Seq<char>>::empty());
    }
    assert(forall|i: int| 0 <= i < lines.len() ==> (#[trigger] lines[i]).len() > 0) by {
        assert forall|i: int| 0 <= i < lines.len() implies (#[trigger] lines[i]).len() > 0 by {
            lemma_interval_line_clean(log[i]);
        }
    }
    lemma_keep_all_nonempty(seq![header_text()] + lines);
    assert(keep_nonempty(split_on(log_text(log), '\n')) =~~= seq![header_text()] + lines);
    assert(data_rows(log_text(log)) =~~= lines);
    assert forall|i: int| 0 <= i < log.len() implies parses_to(
        data_rows(log_text(log))[i],
        log[i],
    ) by {
        lemma_interval_round_trip(log[i]);
    }
}

} // verus!
