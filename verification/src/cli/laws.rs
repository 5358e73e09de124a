//! What holds of the command line at all times.

use crate::cli::args::{
    digit_error, first_place, is_digit, number, resolution, value_of, Cli, NumberError, Resolution,
    ResolutionError, RunMode,
};
use crate::cli::progress::{Place, Progress, ProgressEvent};
use crate::cli::render::{load_step, LoadEvent, LoadStep};
use crate::text::{decimal, digit, lemma_trimmed, trimmed};
use vstd::prelude::*;

verus! {

/// A size that is accepted has no side of zero.
pub proof fn law_accepted_resolution_is_not_empty(s: Seq<char>)
    ensures
        resolution(s) matches Ok(size) ==> size.width > 0 && size.height > 0,
{
}

/// Whatever is run without a viewer, from arguments that pass, has something
/// to load.
pub proof fn law_headless_runs_have_a_source(cli: Cli)
    requires
        !(cli.has_render_output && !cli.has_source),
        !(!cli.with_viewer && !cli.has_source),
    ensures
        cli.mode() != RunMode::Viewer ==> cli.has_source,
{
}

/// The time that is told at the end is that of the last training step, however
/// many other reports came after it.
pub proof fn law_only_steps_tell_the_time(progress: Progress, event: ProgressEvent)
    ensures
        !(event is TrainStep) ==> progress.after(event) == progress,
        event matches ProgressEvent::TrainStep { elapsed_secs, .. } ==> progress.after(
            event,
        ).duration_secs == elapsed_secs,
{
}

/// Only a failure and a source that is no training end the progress.
pub proof fn law_progress_ends_for_two_reasons(progress: Progress, event: ProgressEvent, i: int)
    requires
        0 <= i < progress.notices(event).len(),
    ensures
        progress.notices(event)[i].0 == Place::Fail ==> event is Failed,
        progress.notices(event)[i].0 == Place::Stop ==> (event matches ProgressEvent::StartLoading {
            training,
            ..
        } && !training),
{
}

/// A data set is never rendered, and loading only goes on while there is
/// something to wait for.
pub proof fn law_dataset_is_never_rendered(event: LoadEvent)
    ensures
        load_step(event) == LoadStep::RejectDataset <==> event == (LoadEvent::StartLoading {
            training: true,
        }),
        load_step(event) == LoadStep::Render <==> event == LoadEvent::DoneLoading || event
            == LoadEvent::End,
{
}

/// A number written in decimal is read back as it was.
pub proof fn law_numbers_read_back(n: u32)
    ensures
        number(decimal(n as nat)) == Ok::<u32, NumberError>(n),
{
    lemma_decimal_is_read(n as nat);
    lemma_decimal_has_digits(n as nat, 0);
}

/// A size written as WIDTHxHEIGHT is read back as it was.
pub proof fn law_resolutions_read_back(width: u32, height: u32)
    requires
        width > 0,
        height > 0,
    ensures
        resolution(decimal(width as nat) + seq!['x'] + decimal(height as nat)) == Ok::<
            Resolution,
            ResolutionError,
        >(Resolution { width, height }),
{
    let w = decimal(width as nat);
    let h = decimal(height as nat);
    let s = w + seq!['x'] + h;
    let at = w.len() as int;
    assert(s[at] == 'x');
    assert(s.contains('x'));
    assert forall|j: int| 0 <= j < at implies #[trigger] s[j] != 'x' by {
        lemma_decimal_has_digits(width as nat, j);
        assert(s[j] == w[j]);
    }
    assert(first_place(s, 'x', at));
    let i = choose|i: int| first_place(s, 'x', i);
    assert(first_place(s, 'x', i));
    if i < at {
        assert(s[i] != 'x');
    }
    if at < i {
        assert(s[at] != 'x');
    }
    assert(s.take(at) =~= w);
    assert(s.skip(at + 1) =~= h);
    lemma_decimal_is_trimmed(width as nat);
    lemma_decimal_is_trimmed(height as nat);
    law_numbers_read_back(width);
    law_numbers_read_back(height);
}

proof fn lemma_decimal_has_digits(n: nat, i: int)
    ensures
        decimal(n).len() >= 1,
        0 <= i < decimal(n).len() ==> is_digit(decimal(n)[i]),
    decreases n,
{
    if n >= 10 {
        lemma_decimal_has_digits(n / 10, i);
    }
}

proof fn lemma_decimal_is_trimmed(n: nat)
    ensures
        trimmed(decimal(n)) == decimal(n),
{
    let s = decimal(n);
    lemma_decimal_has_digits(n, 0);
    lemma_decimal_has_digits(n, s.len() - 1);
    lemma_trimmed(s, 0, s.len() as int);
    assert(s.subrange(0, s.len() as int) =~= s);
}

proof fn lemma_error_of_prefix(s: Seq<char>, c: char, k: nat)
    requires
        k <= s.len(),
    ensures
        digit_error(s.push(c), k) == digit_error(s, k),
    decreases k,
{
    if k > 0 {
        lemma_error_of_prefix(s, c, (k - 1) as nat);
        assert(s.push(c).take(k as int) =~= s.take(k as int));
    }
}

proof fn lemma_decimal_is_read(n: nat)
    requires
        n <= u32::MAX,
    ensures
        value_of(decimal(n)) == n,
        digit_error(decimal(n), decimal(n).len()) is None,
    decreases n,
{
    let s = decimal(n);
    if n < 10 {
        assert(s.drop_last() =~= Seq::<char>::empty());
        assert(s.take(1) =~= s);
        assert(value_of(s) == n) by {
            assert(value_of(s.drop_last()) == 0);
        }
        assert(digit_error(s, 0) is None);
    } else {
        lemma_decimal_is_read(n / 10);
        let before = decimal(n / 10);
        let c = digit(n as int % 10);
        assert(s == before.push(c));
        assert(s.drop_last() =~= before);
        assert(s.take(s.len() as int) =~= s);
        lemma_error_of_prefix(before, c, before.len());
        assert(value_of(s) == n);
    }
}

} // verus!
