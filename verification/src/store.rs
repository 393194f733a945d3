//! The file-backed storage providers: the persisted-document format of the
//! whole configuration and the line-oriented audit log.
//!
//! The types here hold the storage locations and do everything textual:
//! rendering the configuration document, parsing it back, rendering one
//! audit entry per line and parsing a whole log, failing fast on the first
//! bad line. The reads and writes themselves happen outside the library,
//! through the storage traits.

use vstd::prelude::*;

use crate::codec::{parse_text, parse_text_spec, render_jv, render_value};
use crate::convert::{
    config_from_value, config_of_jv, config_to_value, entry_from_value, entry_of_jv,
    entry_to_value, jv_of_config, jv_of_entry,
};
use crate::ext::{compact_timestamp_of, format_compact_timestamp, now_millis, push_char};
use crate::strutil::is_space_char;
use crate::types::{AuditLogEntry, AuditLogEntryView, ServerConfig};
use crate::value::Jv;

verus! {

/// The latest timestamp the backup name format is defined for.
pub const MAX_BACKUP_TIMESTAMP: i64 = 253_402_300_799_999;

/// The backup location for a configuration path and a timestamp.
pub open spec fn backup_name_of(path: Seq<char>, ms: int) -> Seq<char> {
    path + ".backup."@ + compact_timestamp_of(ms)
}

/// File-backed persistence of the whole configuration document.
#[derive(Debug)]
pub struct FileConfigStorage {
    pub config_path: String,
}

impl FileConfigStorage {
    /// A provider over the given document path.
    pub fn new(config_path: String) -> (r: Self)
        ensures
            r.config_path@ == config_path@,
    {
        FileConfigStorage { config_path }
    }

    /// The backup location for the document at time `ms`.
    pub fn backup_path_at(&self, ms: i64) -> (r: String)
        requires
            0 <= ms <= MAX_BACKUP_TIMESTAMP,
        ensures
            r@ == backup_name_of(self.config_path@, ms as int),
    {
        let stamp = format_compact_timestamp(ms);
        let mut out = self.config_path.clone();
        out.append(".backup.");
        out.append(stamp.as_str());
        proof {
            assert(out@ =~= backup_name_of(self.config_path@, ms as int));
        }
        out
    }

    /// The backup location for the document now; a clock reading outside
    /// the representable range is clamped to it.
    pub fn backup_path(&self) -> (r: String)
        ensures
            (exists|t: i64|
                0 <= t <= MAX_BACKUP_TIMESTAMP && r@ == backup_name_of(
                    self.config_path@,
                    t as int,
                )),
    {
        let now = now_millis();
        let clamped: i64 = if now < 0 {
            0
        } else if now > MAX_BACKUP_TIMESTAMP {
            MAX_BACKUP_TIMESTAMP
        } else {
            now
        };
        self.backup_path_at(clamped)
    }
}

/// Render the whole configuration as its persisted document.
pub fn render_config_document(c: &ServerConfig) -> (r: String)
    ensures
        r@ == render_jv(jv_of_config(c.deep_view())),
{
    let v = config_to_value(c);
    render_value(&v)
}

/// Parse a persisted document back into a configuration. The maps of the
/// result always have pairwise-distinct keys.
pub fn parse_config_document(s: &str) -> (r: Option<ServerConfig>)
    requires
        s@.len() < usize::MAX,
    ensures
        match r {
            Some(c) => {
                &&& parse_text_spec(s@) is Some
                &&& config_of_jv(parse_text_spec(s@)->Some_0) == Some(c.deep_view())
                &&& c.wf()
            },
            None => parse_text_spec(s@) is None || config_of_jv(parse_text_spec(s@)->Some_0)
                is None,
        },
{
    match parse_text(s) {
        Some(v) => config_from_value(&v),
        None => None,
    }
}

/// File-backed persistence of the append-only audit log.
#[derive(Debug)]
pub struct FileAuditStorage {
    pub audit_log_path: String,
}

impl FileAuditStorage {
    /// A provider over the given log path.
    pub fn new(audit_log_path: String) -> (r: Self)
        ensures
            r.audit_log_path@ == audit_log_path@,
    {
        FileAuditStorage { audit_log_path }
    }
}

/// Render one audit entry as one log line, newline included.
pub fn render_audit_line(e: &AuditLogEntry) -> (r: String)
    ensures
        r@ == render_jv(jv_of_entry(e.deep_view())).push('\n'),
{
    let v = entry_to_value(e);
    let mut out = render_value(&v);
    push_char(&mut out, '\n');
    out
}

/// The log text split at newlines, the separators dropped.
pub open spec fn split_from(s: Seq<char>, i: int, cur: Seq<char>) -> Seq<Seq<char>>
    decreases s.len() - i,
{
    if i < 0 || i >= s.len() {
        seq![cur]
    } else if s[i] == '\n' {
        seq![cur] + split_from(s, i + 1, Seq::empty())
    } else {
        split_from(s, i + 1, cur.push(s[i]))
    }
}

/// The lines of the log text.
pub open spec fn split_lines(s: Seq<char>) -> Seq<Seq<char>> {
    split_from(s, 0, Seq::empty())
}

/// A line with nothing but whitespace on it.
pub open spec fn line_blank(l: Seq<char>) -> bool {
    forall|i: int| 0 <= i < l.len() ==> is_space_char(l[i])
}

/// Parse a sequence of log lines: blank lines are skipped, every other
/// line must hold exactly one entry, and the first bad line fails the
/// whole load.
pub open spec fn parse_log_lines(ls: Seq<Seq<char>>) -> Option<Seq<AuditLogEntryView>>
    decreases ls.len(),
{
    if ls.len() == 0 {
        Some(Seq::empty())
    } else {
        match parse_log_lines(ls.drop_last()) {
            Some(acc) => if line_blank(ls.last()) {
                Some(acc)
            } else {
                match parse_text_spec(ls.last()) {
                    Some(j) => match entry_of_jv(j) {
                        Some(e) => Some(acc.push(e)),
                        None => None,
                    },
                    None => None,
                }
            },
            None => None,
        }
    }
}

/// The character sequences of a sequence of lines.
pub open spec fn lines_dv(v: Seq<Vec<char>>) -> Seq<Seq<char>> {
    Seq::new(
        v.len(),
        |i: int|
            if 0 <= i < v.len() {
                v[i]@
            } else {
                arbitrary()
            },
    )
}

/// Every line is at most as long as what remains of the input plus the
/// line being accumulated.
proof fn lemma_split_line_len(s: Seq<char>, i: int, cur: Seq<char>, t: int)
    requires
        0 <= t < split_from(s, i, cur).len(),
    ensures
        split_from(s, i, cur)[t].len() <= cur.len() + (if i < s.len() {
            s.len() - i
        } else {
            0
        }),
    decreases s.len() - i,
{
    if i < 0 || i >= s.len() {
    } else if s[i] == '\n' {
        if t > 0 {
            lemma_split_line_len(s, i + 1, Seq::empty(), t - 1);
        }
    } else {
        lemma_split_line_len(s, i + 1, cur.push(s[i]), t);
    }
}

fn exec_split_lines(s: &str) -> (r: Vec<Vec<char>>)
    ensures
        lines_dv(r@) == split_lines(s@),
{
    let n = s.unicode_len();
    let mut done: Vec<Vec<char>> = Vec::new();
    let mut cur: Vec<char> = Vec::new();
    let mut i: usize = 0;
    while i < n
        invariant
            n == s@.len(),
            0 <= i <= n,
            split_lines(s@) == lines_dv(done@) + split_from(s@, i as int, cur@),
        decreases n - i,
    {
        let c = s.get_char(i);
        if c == '\n' {
            let ghost pre_done = done@;
            let ghost gcur = cur@;
            done.push(cur);
            cur = Vec::new();
            proof {
                assert(lines_dv(done@) =~= lines_dv(pre_done).push(gcur));
                assert(split_from(s@, i as int, gcur) == seq![gcur] + split_from(
                    s@,
                    i as int + 1,
                    Seq::empty(),
                ));
                assert(lines_dv(done@) + split_from(s@, i as int + 1, Seq::empty())
                    =~= lines_dv(pre_done) + (seq![gcur] + split_from(
                    s@,
                    i as int + 1,
                    Seq::empty(),
                )));
            }
        }  else {
            let ghost gcur = cur@;
            cur.push(c);
            proof {
                assert(split_from(s@, i as int, gcur) == split_from(s@, i as int + 1, cur@));
            }
        }
        i = i + 1;
    }
    let ghost pre_done = done@;
    let ghost gcur = cur@;
    done.push(cur);
    proof {
        assert(split_from(s@, i as int, gcur) == seq![gcur]);
        assert(lines_dv(done@) =~= lines_dv(pre_done).push(gcur));
        assert(lines_dv(pre_done) + seq![gcur] =~= lines_dv(done@));
    }
    done
}

fn chars_to_string(v: &Vec<char>) -> (r: String)
    ensures
        r@ == v@,
{
    let n = v.len();
    let mut out = String::new();
    let mut i: usize = 0;
    while i < n
        invariant
            n == v@.len(),
            0 <= i <= n,
            out@ =~= v@.take(i as int),
        decreases n - i,
    {
        push_char(&mut out, v[i]);
        proof {
            assert(out@ =~= v@.take(i as int + 1));
        }
        i = i + 1;
    }
    proof {
        assert(v@.take(n as int) =~= v@);
    }
    out
}

fn line_is_blank(l: &Vec<char>) -> (r: bool)
    ensures
        r == line_blank(l@),
{
    let n = l.len();
    let mut i: usize = 0;
    while i < n
        invariant
            n == l@.len(),
            0 <= i <= n,
            forall|t: int| 0 <= t < i ==> is_space_char(l@[t]),
        decreases n - i,
    {
        if !crate::strutil::char_is_space(l[i]) {
            return false;
        }
        i = i + 1;
    }
    true
}

/// Parse a whole audit log: one entry per non-blank line, failing on the
/// first line that does not parse.
pub fn parse_audit_log(s: &str) -> (r: Option<Vec<AuditLogEntry>>)
    requires
        s@.len() < usize::MAX,
    ensures
        match r {
            Some(es) => parse_log_lines(split_lines(s@)) == Some(es.deep_view()),
            None => parse_log_lines(split_lines(s@)) is None,
        },
{
    let lines = exec_split_lines(s);
    let n = lines.len();
    let mut out: Vec<AuditLogEntry> = Vec::new();
    let mut i: usize = 0;
    while i < n
        invariant
            s@.len() < usize::MAX,
            n == lines@.len(),
            lines_dv(lines@) == split_lines(s@),
            0 <= i <= n,
            parse_log_lines(split_lines(s@).take(i as int)) == Some(out.deep_view()),
        decreases n - i,
    {
        proof {
            assert(split_lines(s@).take(i as int + 1).drop_last() =~= split_lines(s@).take(
                i as int,
            ));
            assert(split_lines(s@).take(i as int + 1).last() == split_lines(s@)[i as int]);
            assert(lines_dv(lines@)[i as int] == lines@[i as int]@);
        }
        if !line_is_blank(&lines[i]) {
            let text = chars_to_string(&lines[i]);
            proof {
                lemma_split_line_len(s@, 0, Seq::empty(), i as int);
                assert(text@.len() < usize::MAX);
            }
            match parse_text(text.as_str()) {
                Some(v) => {
                    match entry_from_value(&v) {
                        Some(e) => {
                            out.push(e);
                            proof {
                                assert(out.deep_view() =~= parse_log_lines(
                                    split_lines(s@).take(i as int + 1),
                                )->Some_0);
                            }
                        },
                        None => {
                            proof {
                                lemma_log_none_extends(split_lines(s@), i as int + 1);
                            }
                            return None;
                        },
                    }
                },
                None => {
                    proof {
                        lemma_log_none_extends(split_lines(s@), i as int + 1);
                    }
                    return None;
                },
            }
        }
        i = i + 1;
    }
    proof {
        assert(split_lines(s@).take(n as int) =~= split_lines(s@));
    }
    Some(out)
}

/// The text of a whole log: one rendered entry per line.
pub open spec fn log_text(es: Seq<AuditLogEntryView>) -> Seq<char>
    decreases es.len(),
{
    if es.len() == 0 {
        Seq::empty()
    } else {
        render_jv(jv_of_entry(es[0])) + seq!['\n'] + log_text(es.drop_first())
    }
}

/// The rendered line of each entry, in order.
pub open spec fn entry_lines(es: Seq<AuditLogEntryView>) -> Seq<Seq<char>> {
    Seq::new(
        es.len(),
        |t: int|
            if 0 <= t < es.len() {
                render_jv(jv_of_entry(es[t]))
            } else {
                arbitrary()
            },
    )
}

/// Splitting off one framed newline-free line.
proof fn lemma_split_framed_line(x: Seq<char>, i: int, cur: Seq<char>, line: Seq<char>)
    requires
        0 <= i,
        i + line.len() < x.len(),
        x.subrange(i, i + line.len() as int) == line,
        forall|t: int| 0 <= t < line.len() ==> line[t] != '\n',
        x[i + line.len() as int] == '\n',
    ensures
        split_from(x, i, cur) == seq![cur + line] + split_from(
            x,
            i + line.len() + 1,
            Seq::empty(),
        ),
    decreases line.len(),
{
    if line.len() == 0 {
        assert(x[i] == '\n');
        assert(cur + line =~= cur);
        assert(seq![cur + line] + split_from(x, i + 1, Seq::empty()) =~= seq![cur] + split_from(
            x,
            i + 1,
            Seq::empty(),
        ));
    } else {
        assert(x[i] == x.subrange(i, i + line.len() as int)[0]);
        assert(x[i] == line[0]);
        assert(x[i] != '\n');
        let rest = line.drop_first();
        assert(x.subrange(i + 1, i + 1 + rest.len() as int) =~= rest) by {
            assert forall|t: int| 0 <= t < rest.len() implies x[i + 1 + t] == rest[t] by {
                assert(x.subrange(i, i + line.len() as int)[1 + t] == x[i + 1 + t]);
            }
        }
        lemma_split_framed_line(x, i + 1, cur.push(line[0]), rest);
        assert(cur.push(line[0]) + rest =~= cur + line);
    }
}

/// The lines of a whole log text: each entry's rendering, and one final
/// empty piece after the last newline.
proof fn lemma_split_log_text(x: Seq<char>, i: int, es: Seq<AuditLogEntryView>)
    requires
        0 <= i <= x.len(),
        x.subrange(i, x.len() as int) == log_text(es),
    ensures
        split_from(x, i, Seq::empty()) == entry_lines(es).push(Seq::<char>::empty()),
    decreases es.len(),
{
    if es.len() == 0 {
        assert(x.subrange(i, x.len() as int).len() == 0);
        assert(i == x.len());
        assert(split_from(x, i, Seq::empty()) =~= entry_lines(es).push(Seq::<char>::empty()));
    } else {
        let line = render_jv(jv_of_entry(es[0]));
        let ll = line.len() as int;
        let rest_text = log_text(es.drop_first());
        assert(x.len() - i == ll + 1 + rest_text.len());
        assert forall|t: int| 0 <= t < x.len() - i implies x[i + t] == log_text(es)[t] by {
            assert(x.subrange(i, x.len() as int)[t] == x[i + t]);
        }
        assert(x.subrange(i, i + ll) =~= line) by {
            assert forall|t: int| 0 <= t < ll implies x[i + t] == line[t] by {
                assert(log_text(es)[t] == line[t]);
            }
        }
        assert(x[i + ll] == '\n') by {
            assert(log_text(es)[ll] == '\n');
        }
        crate::codec::lemma_render_no_newline(jv_of_entry(es[0]));
        lemma_split_framed_line(x, i, Seq::empty(), line);
        assert(Seq::<char>::empty() + line =~= line);
        assert(x.subrange(i + ll + 1, x.len() as int) =~= rest_text) by {
            assert forall|t: int| 0 <= t < rest_text.len() implies x[i + ll + 1 + t]
                == rest_text[t] by {
                assert(log_text(es)[ll + 1 + t] == rest_text[t]);
            }
        }
        lemma_split_log_text(x, i + ll + 1, es.drop_first());
        assert(seq![line] + entry_lines(es.drop_first()).push(Seq::<char>::empty())
            =~= entry_lines(es).push(Seq::<char>::empty()));
    }
}

/// Parsing each rendered line gives the entries back.
proof fn lemma_parse_entry_lines(es: Seq<AuditLogEntryView>)
    requires
        forall|t: int|
            0 <= t < es.len() ==> crate::codec::jv_i64(#[trigger] jv_of_entry(es[t])),
    ensures
        parse_log_lines(entry_lines(es)) == Some(es),
    decreases es.len(),
{
    if es.len() > 0 {
        assert(entry_lines(es).drop_last() =~= entry_lines(es.drop_last()));
        assert(forall|t: int|
            0 <= t < es.drop_last().len() ==> #[trigger] es.drop_last()[t] == es[t]);
        lemma_parse_entry_lines(es.drop_last());
        let last = es.last();
        let line = render_jv(jv_of_entry(last));
        assert(!line_blank(line)) by {
            assert(line[0] == '{');
            assert(!is_space_char('{'));
        }
        crate::codec::lemma_parse_render_round_trip(jv_of_entry(last));
        crate::convert::lemma_entry_round_trip(last);
        assert(es.drop_last().push(last) =~= es);
    } else {
        assert(entry_lines(es) =~= Seq::<Seq<char>>::empty());
    }
}

/// The audit log round trip: rendering entries one per line and loading
/// the log back yields the same history, in order.
pub proof fn lemma_audit_log_round_trip(es: Seq<AuditLogEntryView>)
    requires
        forall|t: int|
            0 <= t < es.len() ==> crate::codec::jv_i64(#[trigger] jv_of_entry(es[t])),
    ensures
        parse_log_lines(split_lines(log_text(es))) == Some(es),
{
    let x = log_text(es);
    assert(x.subrange(0, x.len() as int) =~= x);
    lemma_split_log_text(x, 0, es);
    let ls = entry_lines(es).push(Seq::<char>::empty());
    assert(ls.drop_last() =~= entry_lines(es));
    assert(line_blank(Seq::<char>::empty()));
    lemma_parse_entry_lines(es);
}

/// A prefix of lines that already failed keeps the whole log failing.
proof fn lemma_log_none_extends(ls: Seq<Seq<char>>, i: int)
    requires
        0 <= i <= ls.len(),
        parse_log_lines(ls.take(i)) is None,
    ensures
        parse_log_lines(ls) is None,
    decreases ls.len() - i,
{
    if i < ls.len() {
        assert(ls.take(i + 1).drop_last() =~= ls.take(i));
        lemma_log_none_extends(ls, i + 1);
    } else {
        assert(ls.take(i) =~= ls);
    }
}

} // verus!
