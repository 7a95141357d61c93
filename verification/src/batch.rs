//! Batch processing: expanding the inputs, naming the outputs, reporting.

use vstd::prelude::*;
use crate::formats::{Format, lemma_extension_round_trip};
use crate::text::ascii_lower;
use crate::text::push_char;

verus! {

broadcast use vstd::std_specs::vec::group_vec_axioms, vstd::seq::group_seq_axioms;

/// The input files of a batch: each pattern in turn gives the paths it
/// matched, or the pattern itself when it matched nothing; an invalid
/// pattern fails the batch with its error.
pub open spec fn spec_expand_inputs<P, E>(globbed: Seq<(P, Result<Vec<P>, E>)>) -> Result<Seq<P>, E>
    decreases globbed.len(),
{
    if globbed.len() == 0 {
        Ok(Seq::empty())
    } else {
        match spec_expand_inputs(globbed.drop_last()) {
            Err(e) => Err(e),
            Ok(acc) => match globbed.last().1 {
                Err(e) => Err(e),
                Ok(matches) => Ok(acc + if matches@.len() == 0 { seq![globbed.last().0] } else { matches@ }),
            },
        }
    }
}

/// Expands the inputs of a batch from each pattern and what matching it on
/// disk gave.
pub fn expand_inputs<P, E>(globbed: Vec<(P, Result<Vec<P>, E>)>) -> (r: Result<Vec<P>, E>)
    ensures
        match (r, spec_expand_inputs(globbed@)) {
            (Ok(files), Ok(expected)) => files@ == expected,
            (Err(e), Err(f)) => e == f,
            _ => false,
        },
{
    let ghost g = globbed@;
    let mut rest = globbed;
    let mut reversed: Vec<(P, Result<Vec<P>, E>)> = Vec::new();
    while rest.len() > 0
        invariant
            g == globbed@,
            g == rest@ + reversed@.reverse(),
        decreases rest@.len(),
    {
        let ghost before = reversed@;
        let ghost r0 = rest@;
        let item = rest.pop().unwrap();
        reversed.push(item);
        proof {
            assert(reversed@.reverse() =~= seq![item] + before.reverse());
            assert(r0 =~= rest@.push(item));
            assert(g =~= rest@ + reversed@.reverse());
        }
    }
    let mut files: Vec<P> = Vec::new();
    let ghost mut done: int = 0;
    proof {
        assert(g =~= reversed@.reverse());
        assert(g.take(0) =~= Seq::<(P, Result<Vec<P>, E>)>::empty());
    }
    while reversed.len() > 0
        invariant
            g == globbed@,
            g.len() == done + reversed@.len(),
            0 <= done <= g.len(),
            g.skip(done) == reversed@.reverse(),
            spec_expand_inputs(g.take(done)) == Ok::<Seq<P>, E>(files@),
        decreases reversed@.len(),
    {
        let ghost rv = reversed@;
        let (pattern, matched) = reversed.pop().unwrap();
        proof {
            assert(g.skip(done)[0] == rv.reverse()[0]);
            assert(rv.reverse()[0] == rv.last());
            assert(g[done] == (pattern, matched));
            assert(g.take(done + 1).drop_last() =~= g.take(done));
            assert(g.take(done + 1).last() == g[done]);
            assert(reversed@.reverse() =~= rv.reverse().drop_first());
            assert(g.skip(done + 1) =~= g.skip(done).drop_first());
        }
        match matched {
            Err(e) => {
                proof {
                    lemma_expand_fails(g, done + 1);
                }
                return Err(e);
            },
            Ok(mut found) => {
                let ghost before = files@;
                let ghost fv = found@;
                proof {
                    assert(g.take(done + 1).last().1 == Ok::<Vec<P>, E>(found));
                }
                if found.len() == 0 {
                    files.push(pattern);
                    proof {
                        assert(files@ =~= before + seq![g.take(done + 1).last().0]);
                    }
                } else {
                    files.append(&mut found);
                    proof {
                        assert(files@ =~= before + fv);
                    }
                }
                proof {
                    done = done + 1;
                }
            },
        }
    }
    proof {
        assert(g.take(done) =~= g);
    }
    Ok(files)
}

proof fn lemma_expand_fails<P, E>(g: Seq<(P, Result<Vec<P>, E>)>, k: int)
    requires
        1 <= k <= g.len(),
        spec_expand_inputs(g.take(k)) is Err,
    ensures
        spec_expand_inputs(g) == spec_expand_inputs(g.take(k)),
    decreases g.len() - k,
{
    if k < g.len() {
        assert(g.take(k + 1).drop_last() =~= g.take(k));
        lemma_expand_fails(g, k + 1);
    } else {
        assert(g.take(k) =~= g);
    }
}

/// A single pattern gives the paths it matched, in their order, when it
/// matched any, and the pattern itself only when it matched none; an
/// invalid pattern fails with its error.
pub proof fn lemma_expand_single_pattern<P, E>(p: P, m: Vec<P>, e: E)
    ensures
        m@.len() > 0 ==> spec_expand_inputs(seq![(p, Ok::<Vec<P>, E>(m))]) == Ok::<Seq<P>, E>(m@),
        m@.len() == 0 ==> spec_expand_inputs(seq![(p, Ok::<Vec<P>, E>(m))]) == Ok::<Seq<P>, E>(seq![p]),
        spec_expand_inputs(seq![(p, Err::<Vec<P>, E>(e))]) == Err::<Seq<P>, E>(e),
{
    let empty = Seq::<(P, Result<Vec<P>, E>)>::empty();
    assert(spec_expand_inputs(empty) == Ok::<Seq<P>, E>(Seq::empty()));
    let g = seq![(p, Ok::<Vec<P>, E>(m))];
    assert(g.drop_last() =~= empty);
    assert(g.last() == (p, Ok::<Vec<P>, E>(m)));
    let h = seq![(p, Err::<Vec<P>, E>(e))];
    assert(h.drop_last() =~= empty);
    assert(h.last() == (p, Err::<Vec<P>, E>(e)));
    assert(Seq::<P>::empty() + m@ =~= m@);
    assert(Seq::<P>::empty() + seq![p] =~= seq![p]);
}

/// Patterns contribute one after another: the inputs of two lists of
/// patterns together are the inputs of the first followed by those of the
/// second, and the first invalid pattern's error fails the whole.
pub proof fn lemma_expand_inputs_concat<P, E>(a: Seq<(P, Result<Vec<P>, E>)>, b: Seq<(P, Result<Vec<P>, E>)>)
    ensures
        match (spec_expand_inputs(a), spec_expand_inputs(b)) {
            (Ok(x), Ok(y)) => spec_expand_inputs(a + b) == Ok::<Seq<P>, E>(x + y),
            (Err(e), _) => spec_expand_inputs(a + b) == Err::<Seq<P>, E>(e),
            (Ok(_), Err(e)) => spec_expand_inputs(a + b) == Err::<Seq<P>, E>(e),
        },
    decreases b.len(),
{
    if b.len() == 0 {
        assert(a + b =~= a);
        if let Ok(x) = spec_expand_inputs(a) {
            assert(x + Seq::<P>::empty() =~= x);
        }
    } else {
        lemma_expand_inputs_concat(a, b.drop_last());
        assert((a + b).drop_last() =~= a + b.drop_last());
        assert((a + b).last() == b.last());
        if let (Ok(x), Ok(y)) = (spec_expand_inputs(a), spec_expand_inputs(b.drop_last())) {
            if let Ok(ms) = b.last().1 {
                let c = if ms@.len() == 0 { seq![b.last().0] } else { ms@ };
                assert(x + y + c =~= x + (y + c));
            }
        }
    }
}

/// Every pattern contributes at least one input: a batch never loses one.
pub proof fn lemma_expand_inputs_covers<P, E>(globbed: Seq<(P, Result<Vec<P>, E>)>)
    ensures
        spec_expand_inputs(globbed) matches Ok(files) ==> files.len() >= globbed.len(),
    decreases globbed.len(),
{
    if globbed.len() > 0 {
        lemma_expand_inputs_covers(globbed.drop_last());
    }
}

/// The name of an output file: the input's stem, a dot, and the target's
/// extension.
pub fn output_file_name(stem: &str, target: &Format) -> (r: String)
    ensures
        r@ == stem@ + seq!['.'] + target.spec_extension(),
{
    let mut name = String::from_str(stem);
    push_char(&mut name, '.');
    name.append(target.extension());
    name
}

/// The decimal digits of a number.
pub open spec fn decimal(n: nat) -> Seq<char>
    decreases n,
{
    if n < 10 {
        seq![((48 + n) as u32) as char]
    } else {
        decimal(n / 10).push(((48 + n % 10) as u32) as char)
    }
}

/// Writes a number in decimal.
pub fn decimal_text(n: usize) -> (r: String)
    ensures
        r@ == decimal(n as nat),
    decreases n,
{
    if n < 10 {
        let mut s = String::new();
        push_char(&mut s, ((48 + n) as u8) as char);
        proof {
            assert(s@ =~= decimal(n as nat));
        }
        s
    } else {
        let mut s = decimal_text(n / 10);
        push_char(&mut s, ((48 + n % 10) as u8) as char);
        s
    }
}

/// What became of one input file of a batch.
pub enum FileOutcome {
    /// Its format was not recognized.
    Skipped,
    /// It was converted; the output's display name.
    Converted(String),
    /// Converting it failed; the error's message.
    Failed(String),
}

/// The progress line reported for one input file.
pub open spec fn spec_report_line(input: Seq<char>, outcome: FileOutcome) -> Seq<char> {
    match outcome {
        FileOutcome::Skipped => "  skip  "@ + input + " (unknown format)"@,
        FileOutcome::Converted(output) => "  ok    "@ + input + " -> "@ + output@,
        FileOutcome::Failed(message) => "  error "@ + input + " : "@ + message@,
    }
}

/// The progress line for one input file.
pub fn report_line(input: &str, outcome: &FileOutcome) -> (r: String)
    ensures
        r@ == spec_report_line(input@, *outcome),
{
    match outcome {
        FileOutcome::Skipped => {
            let mut line = String::from_str("  skip  ");
            line.append(input);
            line.append(" (unknown format)");
            line
        },
        FileOutcome::Converted(output) => {
            let mut line = String::from_str("  ok    ");
            line.append(input);
            line.append(" -> ");
            line.append(output.as_str());
            line
        },
        FileOutcome::Failed(message) => {
            let mut line = String::from_str("  error ");
            line.append(input);
            line.append(" : ");
            line.append(message.as_str());
            line
        },
    }
}

/// How many outcomes are failures.
pub open spec fn failures(outcomes: Seq<FileOutcome>) -> nat
    decreases outcomes.len(),
{
    if outcomes.len() == 0 {
        0
    } else {
        failures(outcomes.drop_last()) + if outcomes.last() is Failed { 1nat } else { 0nat }
    }
}

/// The end of a batch: a summary when every file went through (skipped
/// files included), else an error counting the failures.
pub open spec fn spec_summarize(outcomes: Seq<FileOutcome>) -> Result<Seq<char>, Seq<char>> {
    if failures(outcomes) > 0 {
        Err(decimal(failures(outcomes)) + " file(s) failed to convert"@)
    } else {
        Ok("Done. Converted "@ + decimal(outcomes.len()) + " file(s)."@)
    }
}

/// Summarizes a batch from the outcomes of its files.
pub fn summarize(outcomes: &Vec<FileOutcome>) -> (r: Result<String, String>)
    ensures
        match (r, spec_summarize(outcomes@)) {
            (Ok(s), Ok(t)) => s@ == t,
            (Err(s), Err(t)) => s@ == t,
            _ => false,
        },
{
    let n = outcomes.len();
    let mut failed: usize = 0;
    let mut i: usize = 0;
    while i < n
        invariant
            n == outcomes@.len(),
            i <= n,
            failed as nat == failures(outcomes@.take(i as int)),
            failed <= i,
        decreases n - i,
    {
        proof {
            assert(outcomes@.take(i + 1).drop_last() =~= outcomes@.take(i as int));
            assert(outcomes@.take(i + 1).last() == outcomes@[i as int]);
        }
        if let FileOutcome::Failed(_) = &outcomes[i] {
            failed = failed + 1;
        }
        i = i + 1;
    }
    proof {
        assert(outcomes@.take(n as int) =~= outcomes@);
    }
    if failed > 0 {
        let mut m = decimal_text(failed);
        m.append(" file(s) failed to convert");
        Err(m)
    } else {
        let mut m = String::from_str("Done. Converted ");
        m.append(decimal_text(n).as_str());
        m.append(" file(s).");
        Ok(m)
    }
}

/// A batch ends well exactly when none of its files failed; skipped files
/// do not fail it, and the error counts every failure.
pub proof fn lemma_summarize_ok_iff_no_failure(outcomes: Seq<FileOutcome>)
    ensures
        spec_summarize(outcomes) is Ok <==> forall|i: int| 0 <= i < outcomes.len() ==> !(#[trigger] outcomes[i] is Failed),
        failures(outcomes) <= outcomes.len(),
    decreases outcomes.len(),
{
    if outcomes.len() > 0 {
        let p = outcomes.drop_last();
        lemma_summarize_ok_iff_no_failure(p);
        if failures(outcomes) == 0 {
            assert forall|i: int| 0 <= i < outcomes.len() implies !(#[trigger] outcomes[i] is Failed) by {
                if i < p.len() {
                    assert(p[i] == outcomes[i]);
                    if outcomes[i] is Failed {
                        assert(!(spec_summarize(p) is Ok));
                    }
                }
            }
        } else {
            if forall|i: int| 0 <= i < outcomes.len() ==> !(#[trigger] outcomes[i] is Failed) {
                assert forall|i: int| 0 <= i < p.len() implies !(#[trigger] p[i] is Failed) by {
                    assert(p[i] == outcomes[i]);
                }
                assert(!(outcomes[outcomes.len() - 1] is Failed));
            }
        }
    }
}

/// The target format a command names, or the message refusing it.
pub fn target_format(name: &str) -> (r: Result<Format, String>)
    ensures
        match Format::spec_from_extension(name@) {
            Some(f) => r == Ok::<Format, String>(f),
            None => r matches Err(m) && m@ == "Unknown target format: "@ + name@,
        },
{
    match Format::from_name(name) {
        Some(f) => Ok(f),
        None => {
            let mut m = String::from_str("Unknown target format: ");
            m.append(name);
            Err(m)
        },
    }
}

/// A batch needs at least one input file.
pub fn require_inputs<P>(files: &Vec<P>) -> (r: Result<(), String>)
    ensures
        r is Ok <==> files@.len() > 0,
        r matches Err(m) ==> m@ == "No input files found"@,
{
    if files.len() == 0 {
        Err(String::from_str("No input files found"))
    } else {
        Ok(())
    }
}


/// An output file's name ends in a dot and the target's extension, which
/// holds no dot and names the target again: the converted file is
/// recognized as the format it was converted to.
pub proof fn lemma_output_name_names_target(stem: Seq<char>, f: Format)
    ensures
        ({
            let ext = f.spec_extension();
            let name = stem + seq!['.'] + ext;
            &&& name.skip(name.len() - ext.len()) == ext
            &&& name[name.len() - ext.len() - 1] == '.'
            &&& forall|i: int| 0 <= i < ext.len() ==> #[trigger] ext[i] != '.'
            &&& Format::spec_from_lower(ascii_lower(ext)) == Some(f)
        }),
{
    lemma_extension_round_trip(f);
    let ext = f.spec_extension();
    let name = stem + seq!['.'] + ext;
    assert(name.skip(name.len() - ext.len()) =~= ext);
}

} // verus!
