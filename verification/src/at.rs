//! The queue of at(1), in which older versions put jobs that fire once.
use crate::moment::{is_local_text, local_text, Pattern, Timestamp};
use crate::text::{
    contains_char, contains_text, has_char, has_text, law_text_within, lines, replace, replaced, split_lines,
    split_whitespace, starts_with, strip_prefix, trim, trimmed, views, words,
};
use vstd::prelude::*;

verus! {

/// A text that the shell would not take as it stands.
pub open spec fn needs_escape(s: Seq<char>) -> bool {
    has_char(s, ' ') || has_char(s, '\'') || has_char(s, '"') || has_char(s, '$')
}

/// A text as one word of a shell's command line.
pub open spec fn shell_escaped(s: Seq<char>) -> Seq<char> {
    if needs_escape(s) {
        "'"@ + replaced(s, '\'', "'\\''"@) + "'"@
    } else {
        s
    }
}

/// A text as one word of a shell's command line: within single quotes where it has spaces,
/// quotes or dollar signs.
pub fn shell_escape(s: &str) -> (r: String)
    ensures
        r@ == shell_escaped(s@),
{
    if contains_char(s, ' ') || contains_char(s, '\'') || contains_char(s, '"') || contains_char(
        s,
        '$',
    ) {
        let mut r = "'".to_owned();
        r.append(replace(s, '\'', "'\\''").as_str());
        r.append("'");
        r
    } else {
        s.to_owned()
    }
}

/// A word as the shell reads it, within single quotes or outside them: what the quotes
/// enclose is taken as it stands, and outside them a backslash takes the next character so.
/// There is none where a quote is left open.
pub open spec fn shell_word(s: Seq<char>, within: bool) -> Option<Seq<char>>
    decreases s.len(),
{
    if s.len() == 0 {
        if within {
            None
        } else {
            Some(Seq::empty())
        }
    } else if s[0] == '\'' {
        shell_word(s.skip(1), !within)
    } else if !within && s[0] == '\\' && s.len() >= 2 {
        match shell_word(s.skip(2), within) {
            Some(rest) => Some(seq![s[1]] + rest),
            None => None,
        }
    } else {
        match shell_word(s.skip(1), within) {
            Some(rest) => Some(seq![s[0]] + rest),
            None => None,
        }
    }
}

/// A replacement, taken from the front of the text.
proof fn lemma_replaced_front(s: Seq<char>, c: char, by: Seq<char>)
    requires
        s.len() > 0,
    ensures
        replaced(s, c, by) == (if s[0] == c {
            by
        } else {
            seq![s[0]]
        }) + replaced(s.skip(1), c, by),
    decreases s.len(),
{
    let head = if s[0] == c {
        by
    } else {
        seq![s[0]]
    };
    if s.len() == 1 {
        assert(s.drop_last() == Seq::<char>::empty());
        assert(s.skip(1) == Seq::<char>::empty());
        assert(replaced(Seq::<char>::empty(), c, by) == Seq::<char>::empty());
        assert(s.last() == s[0]);
    } else {
        lemma_replaced_front(s.drop_last(), c, by);
        assert(s.drop_last().skip(1) == s.skip(1).drop_last());
        assert(s.skip(1).last() == s.last());
        let tail = if s.last() == c {
            by
        } else {
            seq![s.last()]
        };
        assert(replaced(s, c, by) == replaced(s.drop_last(), c, by) + tail);
        assert(replaced(s.skip(1), c, by) == replaced(s.skip(1).drop_last(), c, by) + tail);
    }
}

/// What stands in the quotes, with the closing one, reads back as the text.
proof fn lemma_within_quotes(s: Seq<char>)
    ensures
        shell_word(replaced(s, '\'', "'\\''"@) + "'"@, true) == Some(s),
    decreases s.len(),
{
    reveal_strlit("'");
    reveal_strlit("'\\''");
    let by = "'\\''"@;
    if s.len() == 0 {
        let t = replaced(s, '\'', by) + "'"@;
        assert(t == seq!['\'']);
        assert(t.skip(1) == Seq::<char>::empty());
        assert(shell_word(t.skip(1), false) == Some(Seq::<char>::empty()));
        assert(s == Seq::<char>::empty());
    } else {
        let rest = replaced(s.skip(1), '\'', by) + "'"@;
        let t = replaced(s, '\'', by) + "'"@;
        lemma_replaced_front(s, '\'', by);
        lemma_within_quotes(s.skip(1));
        assert(seq![s[0]] + s.skip(1) == s);
        if s[0] == '\'' {
            assert(t == by + rest);
            assert(t.skip(1) == seq!['\\', '\'', '\''] + rest);
            assert(t.skip(1).skip(2) == seq!['\''] + rest);
            assert(t.skip(1).skip(2).skip(1) == rest);
            assert(shell_word(t.skip(1).skip(2), false) == shell_word(rest, true));
            assert(shell_word(t.skip(1), false) == Some(seq!['\''] + s.skip(1)));
        } else {
            assert(t == seq![s[0]] + rest);
            assert(t.skip(1) == rest);
        }
    }
}

/// A text that is put in quotes is read back by the shell as it was, as one word.
pub proof fn law_escaped_text_reads_back(s: Seq<char>)
    requires
        needs_escape(s),
    ensures
        shell_word(shell_escaped(s), false) == Some(s),
{
    reveal_strlit("'");
    lemma_within_quotes(s);
    let inner = replaced(s, '\'', "'\\''"@) + "'"@;
    assert(shell_escaped(s) == "'"@ + inner);
    assert(("'"@ + inner).skip(1) == inner);
}

/// The number of the job that at(1) reports: the second word of the first line that starts
/// with `job` and has one.
pub open spec fn job_number(ls: Seq<Seq<char>>) -> Option<Seq<char>>
    decreases ls.len(),
{
    if ls.len() == 0 {
        None
    } else if starts_with(ls[0], "job "@) && words(ls[0]).len() >= 2 {
        Some(words(ls[0])[1])
    } else {
        job_number(ls.skip(1))
    }
}

/// The number of the job that at(1) reports.
pub fn parse_at_job_number(output: &str) -> (r: Option<String>)
    ensures
        r is Some <==> job_number(lines(output@)) is Some,
        r matches Some(n) ==> job_number(lines(output@)) == Some(n@),
{
    let ls = split_lines(output);
    let ghost all = lines(output@);
    let mut i: usize = 0;
    assert(all.skip(0) == all);
    while i < ls.len()
        invariant
            i <= ls@.len(),
            all == views(ls@),
            all == lines(output@),
            job_number(all.skip(i as int)) == job_number(all),
        decreases ls.len() - i,
    {
        let line = ls[i];
        proof {
            assert(all.skip(i as int)[0] == line@);
            assert(all.skip(i as int).skip(1) == all.skip(i + 1));
        }
        if strip_prefix(line, "job ").is_some() {
            let parts = split_whitespace(line);
            assert(views(parts@).len() == parts@.len());
            if parts.len() >= 2 {
                assert(views(parts@)[1] == parts@[1]@);
                return Some(parts[1].to_owned());
            }
        }
        i += 1;
    }
    assert(all.skip(i as int).len() == 0);
    None
}

/// What to hand to at(1): the time as its argument, and the line to run as its input.
#[derive(Debug)]
pub struct AtRequest {
    pub time_spec: String,
    pub line: String,
}

/// The line that runs a job by its ID.
pub open spec fn run_line(usched_path: Seq<char>, id: Seq<char>) -> Seq<char> {
    shell_escaped(usched_path) + " __run-job "@ + shell_escaped(id)
}

/// What to hand to at(1) for a job that fires once. The line holds no copy of the command.
pub fn schedule_at(
    job_id: &str,
    at_time: Timestamp,
    _command: &Vec<String>,
    usched_path: &str,
) -> (r: AtRequest)
    requires
        at_time.wf(),
    ensures
        is_local_text(r.time_spec@, at_time, Pattern::AtQueue.spec_format()),
        r.line@ == run_line(usched_path@, job_id@),
{
    let time_spec = local_text(at_time, Pattern::AtQueue);
    let mut line = shell_escape(usched_path);
    line.append(" __run-job ");
    line.append(shell_escape(job_id).as_str());
    AtRequest { time_spec, line }
}

/// The number of a job in the queue, as what at(1) wrote to its error output tells it.
pub fn at_job(stderr: &str) -> (r: String)
    ensures
        r@ == match job_number(lines(stderr@)) {
            Some(n) => n,
            None => "unknown"@,
        },
{
    match parse_at_job_number(stderr) {
        Some(n) => n,
        None => "unknown".to_owned(),
    }
}

/// What becomes of the removal of a job from the queue.
#[derive(Debug)]
pub enum AtRemoval {
    /// The job is gone.
    Gone,
    /// The job may still be in the queue, which nothing serves; this is said about it.
    Unserved(String),
    /// The removal failed, for this reason.
    Failed(String),
}

#[verifier::ext_equal]
pub enum AtRemovalView {
    Gone,
    Unserved(Seq<char>),
    Failed(Seq<char>),
}

impl View for AtRemoval {
    type V = AtRemovalView;

    open spec fn view(&self) -> AtRemovalView {
        match *self {
            AtRemoval::Gone => AtRemovalView::Gone,
            AtRemoval::Unserved(s) => AtRemovalView::Unserved(s@),
            AtRemoval::Failed(s) => AtRemovalView::Failed(s@),
        }
    }
}

/// What atrm's success and its error output mean for the removal of a job.
pub open spec fn removal_of(success: bool, stderr: Seq<char>) -> AtRemovalView {
    if success || has_text(stderr, "cannot find"@) {
        AtRemovalView::Gone
    } else if has_text(stderr, "Cannot get uid for atd"@) {
        AtRemovalView::Unserved(
            "warning: atrm could not reach atd ("@ + trimmed(stderr)
                + "). The at-queue entry (if any) was left untouched, but the job has been removed from usched. Enable services.atd if you want at-queue cleanup to succeed."@,
        )
    } else {
        AtRemovalView::Failed("atrm failed: "@ + stderr)
    }
}

/// What atrm's success and its error output mean for the removal of a job: a job that is not
/// found is gone, and where the daemon of the queue is missing the job is harmless.
pub fn remove_at(success: bool, stderr: &str) -> (r: AtRemoval)
    ensures
        r@ == removal_of(success, stderr@),
{
    if success || contains_text(stderr, "cannot find") {
        return AtRemoval::Gone;
    }
    if contains_text(stderr, "Cannot get uid for atd") {
        let mut r = "warning: atrm could not reach atd (".to_owned();
        r.append(trim(stderr));
        r.append(
            "). The at-queue entry (if any) was left untouched, but the job has been removed from usched. Enable services.atd if you want at-queue cleanup to succeed.",
        );
        return AtRemoval::Unserved(r);
    }
    let mut r = "atrm failed: ".to_owned();
    r.append(stderr);
    AtRemoval::Failed(r)
}

/// The line that at(1) is given starts this program with the job's own ID.
pub proof fn law_queued_line_runs_the_job(usched_path: Seq<char>, id: Seq<char>)
    ensures
        run_line(usched_path, id) == shell_escaped(usched_path) + " __run-job "@ + shell_escaped(id),
{
}

/// Text without spaces, quotes and dollar signs is left as it is; other text is put within
/// single quotes, so that the shell reads it as one word.
pub proof fn law_only_special_text_is_escaped(s: Seq<char>)
    ensures
        (forall|i: int|
            0 <= i < s.len() ==> (#[trigger] s[i]) != ' ' && s[i] != '\'' && s[i] != '"' && s[i]
                != '$') ==> shell_escaped(s) == s,
        (exists|i: int|
            0 <= i < s.len() && ((#[trigger] s[i]) == ' ' || s[i] == '\'' || s[i] == '"' || s[i]
                == '$')) ==> shell_escaped(s).len() >= 2 && shell_escaped(s)[0] == '\''
            && shell_escaped(s).last() == '\'' && shell_word(shell_escaped(s), false) == Some(s),
{
    reveal_strlit("'");
    if exists|i: int|
        0 <= i < s.len() && ((#[trigger] s[i]) == ' ' || s[i] == '\'' || s[i] == '"' || s[i]
            == '$') {
        law_escaped_text_reads_back(s);
    }
}

/// The number of a job is the second word of the first line that starts with `job` and a space
/// and has a second word; other lines before it make no difference.
pub proof fn law_job_number_is_the_second_word(
    before: Seq<Seq<char>>,
    line: Seq<char>,
    after: Seq<Seq<char>>,
)
    requires
        forall|i: int|
            0 <= i < before.len() ==> !starts_with(#[trigger] before[i], "job "@) || words(
                before[i],
            ).len() < 2,
        starts_with(line, "job "@),
        words(line).len() >= 2,
    ensures
        job_number(before + seq![line] + after) == Some(words(line)[1]),
        job_number(before) is None,
    decreases before.len(),
{
    let all = before + seq![line] + after;
    if before.len() > 0 {
        let rest = before.skip(1);
        assert(!starts_with(before[0], "job "@) || words(before[0]).len() < 2);
        assert(all[0] == before[0]);
        assert(all.skip(1) == rest + seq![line] + after);
        assert forall|i: int| 0 <= i < rest.len() implies !starts_with(
            #[trigger] rest[i],
            "job "@,
        ) || words(rest[i]).len() < 2 by {
            assert(rest[i] == before[i + 1]);
        }
        law_job_number_is_the_second_word(rest, line, after);
    } else {
        assert(all[0] == line);
    }
}

/// A job is gone from the queue where atrm succeeded or did not find it; where the daemon of the
/// queue is missing that is said, and any other failure is one.
pub proof fn law_removal_from_the_queue(stderr: Seq<char>)
    ensures
        removal_of(true, stderr) == AtRemovalView::Gone,
        has_text(stderr, "cannot find"@) ==> removal_of(false, stderr) == AtRemovalView::Gone,
        !has_text(stderr, "cannot find"@) && has_text(stderr, "Cannot get uid for atd"@) ==> (
        removal_of(false, stderr) matches AtRemovalView::Unserved(said) && has_text(
            said,
            trimmed(stderr),
        )),
        !has_text(stderr, "cannot find"@) && !has_text(stderr, "Cannot get uid for atd"@)
            ==> removal_of(false, stderr) == AtRemovalView::Failed("atrm failed: "@ + stderr),
{
    let t = trimmed(stderr);
    law_text_within(
        "warning: atrm could not reach atd ("@,
        t,
        "). The at-queue entry (if any) was left untouched, but the job has been removed from usched. Enable services.atd if you want at-queue cleanup to succeed."@,
        t,
    );
}

} // verus!
