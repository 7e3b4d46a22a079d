//! Splitting a line of text into runs of uniform bidi level and script.

use vstd::prelude::*;
use crate::analysis::{bidi_levels, char_levels, char_script_tags, script_tags};
use crate::script::Script;
use crate::text::{chars_of, string_of};

verus! {

/// A maximal stretch of the input with one bidi level and one script.
#[derive(Debug)]
pub struct Run {
    /// Index of the first character of the run in the input.
    pub start: usize,
    /// Index one past the last character of the run.
    pub end: usize,
    /// The characters `start..end` of the input.
    pub text: String,
    /// The bidi embedding level shared by the characters of the run.
    pub level: u8,
    /// The script that the run is shaped with.
    pub script: Script,
}

impl Run {
    /// A run reads right to left exactly when its level is odd.
    pub open spec fn rtl(self) -> bool {
        self.level % 2 == 1
    }

    pub fn is_rtl(&self) -> (b: bool)
        ensures
            b == self.rtl(),
    {
        self.level % 2 == 1
    }
}

/// The script in force after the first `upto` characters: the script of the
/// last of them that has a script of its own, or the common script if none
/// of them has.
pub open spec fn carried_script(scripts: Seq<Script>, upto: int) -> Script
    decreases upto,
{
    if upto <= 0 {
        Script::common_spec()
    } else if !scripts[upto - 1].neutral() {
        scripts[upto - 1]
    } else {
        carried_script(scripts, upto - 1)
    }
}

/// Whether a run ends just before character `at`: its level differs from
/// the level of the character before it, or it brings a script of its own
/// that differs from the script in force.
pub open spec fn breaks_before(levels: Seq<u8>, scripts: Seq<Script>, at: int) -> bool {
    ||| levels[at] != levels[at - 1]
    ||| {
        &&& !scripts[at].neutral()
        &&& !carried_script(scripts, at).neutral()
        &&& scripts[at] != carried_script(scripts, at)
    }
}

/// The script of a run that ends before character `end`: the script in
/// force there. While no character has had a script of its own, the run
/// takes the script of the character that follows it, if that one has one.
pub open spec fn run_script(scripts: Seq<Script>, end: int) -> Script {
    if carried_script(scripts, end).neutral() && end < scripts.len() {
        carried_script(scripts, end + 1)
    } else {
        carried_script(scripts, end)
    }
}

/// The runs lie end to end and cover the characters `0..upto`.
pub open spec fn covers(runs: Seq<Run>, upto: int) -> bool {
    &&& upto == 0 ==> runs.len() == 0
    &&& upto > 0 ==> runs.len() > 0 && runs[0].start == 0 && runs.last().end == upto
    &&& forall|k: int| 0 <= k < runs.len() ==> (#[trigger] runs[k]).start < runs[k].end
    &&& forall|k: int| 0 < k < runs.len() ==> (#[trigger] runs[k]).start == runs[k - 1].end
}

/// The run is a stretch of the text that no boundary divides and that
/// begins at a boundary or at the start of the text. It holds its slice of
/// the text, the level of its characters and its script.
pub open spec fn run_matches(
    run: Run,
    text: Seq<char>,
    levels: Seq<u8>,
    scripts: Seq<Script>,
) -> bool {
    &&& 0 <= run.start < run.end <= text.len()
    &&& run.text@ == text.subrange(run.start as int, run.end as int)
    &&& run.level == levels[run.start as int]
    &&& run.script == run_script(scripts, run.end as int)
    &&& forall|i: int| run.start < i < run.end ==> !breaks_before(levels, scripts, i)
    &&& run.start > 0 ==> breaks_before(levels, scripts, run.start as int)
}

/// `runs` is the segmentation of `text`: the runs cover the text without
/// gaps or overlaps, a run ends exactly where the level or the script
/// changes, and every run carries its slice of the text, its level and its
/// script.
pub open spec fn is_segmentation(
    runs: Seq<Run>,
    text: Seq<char>,
    levels: Seq<u8>,
    scripts: Seq<Script>,
) -> bool {
    &&& covers(runs, text.len() as int)
    &&& forall|k: int| 0 <= k < runs.len() ==> run_matches(#[trigger] runs[k], text, levels, scripts)
}

/// The texts of the runs, joined in order.
pub open spec fn joined_text(runs: Seq<Run>) -> Seq<char>
    decreases runs.len(),
{
    if runs.len() == 0 {
        Seq::empty()
    } else {
        joined_text(runs.drop_last()) + runs.last().text@
    }
}

/// Splits `text` into runs, given the bidi level and the script of each of
/// its characters.
pub fn segment(text: &str, levels: &Vec<u8>, scripts: &Vec<Script>) -> (runs: Vec<Run>)
    requires
        levels@.len() == text@.len(),
        scripts@.len() == text@.len(),
    ensures
        is_segmentation(runs@, text@, levels@, scripts@),
        joined_text(runs@) == text@,
{
    let chars = chars_of(text);
    let n = chars.len();
    let mut runs: Vec<Run> = Vec::new();
    let mut start: usize = 0;
    let mut prev_level: u8 = 0;
    let mut prev_script = Script::common();
    let mut i: usize = 0;
    while i < n
        invariant
            n == text@.len(),
            chars@ == text@,
            levels@.len() == n,
            scripts@.len() == n,
            0 <= start <= i <= n,
            i > 0 ==> start < i,
            i > 0 ==> prev_level == levels@[start as int],
            i > 0 ==> prev_level == levels@[i - 1],
            prev_script == carried_script(scripts@, i as int),
            forall|j: int| start < j < i ==> !breaks_before(levels@, scripts@, j),
            start > 0 ==> breaks_before(levels@, scripts@, start as int),
            covers(runs@, start as int),
            forall|k: int|
                0 <= k < runs@.len() ==> run_matches(#[trigger] runs@[k], text@, levels@, scripts@),
            joined_text(runs@) == text@.subrange(0, start as int),
        decreases n - i,
    {
        let level = levels[i];
        let mut script = scripts[i];
        if script.is_neutral() {
            script = prev_script;
        } else if prev_script.is_neutral() {
            prev_script = script;
        }
        if level != prev_level || script != prev_script {
            if start < i {
                let run = Run {
                    start,
                    end: i,
                    text: string_of(&chars, start, i),
                    level: prev_level,
                    script: prev_script,
                };
                proof {
                    lemma_joined_push(runs@, run, text@);
                }
                runs.push(run);
            }
            start = i;
            prev_level = level;
            prev_script = script;
        }
        i += 1;
    }
    if start < n {
        let run = Run {
            start,
            end: n,
            text: string_of(&chars, start, n),
            level: prev_level,
            script: prev_script,
        };
        proof {
            lemma_joined_push(runs@, run, text@);
        }
        runs.push(run);
    }
    assert(text@.subrange(0, n as int) == text@);
    runs
}

/// Splits `text` into runs by the bidi levels and the scripts that the
/// analysis of the text itself gives to its characters.
pub fn segment_text(text: &str) -> (runs: Vec<Run>)
    ensures
        is_segmentation(runs@, text@, bidi_levels(text@), scripts_of_tags(script_tags(text@))),
        joined_text(runs@) == text@,
{
    let levels = char_levels(text);
    let tags = char_script_tags(text);
    let scripts = scripts_from_tags(&tags);
    segment(text, &levels, &scripts)
}

/// The scripts that a sequence of tags names.
pub open spec fn scripts_of_tags(tags: Seq<u32>) -> Seq<Script> {
    Seq::new(tags.len(), |i: int| Script { tag: tags[i] })
}

/// Wraps every tag into a script.
pub fn scripts_from_tags(tags: &Vec<u32>) -> (scripts: Vec<Script>)
    ensures
        scripts@ == scripts_of_tags(tags@),
{
    let mut scripts: Vec<Script> = Vec::new();
    let mut i: usize = 0;
    while i < tags.len()
        invariant
            0 <= i <= tags.len(),
            scripts@.len() == i,
            forall|j: int| 0 <= j < i ==> scripts@[j] == (Script { tag: tags@[j] }),
        decreases tags.len() - i,
    {
        scripts.push(Script { tag: tags[i] });
        i += 1;
    }
    assert(scripts@ =~= scripts_of_tags(tags@));
    scripts
}

/// Joining the texts of a segmentation in order gives back the text: the
/// runs leave no gap and do not overlap.
pub proof fn lemma_segmentation_rebuilds_text(
    runs: Seq<Run>,
    text: Seq<char>,
    levels: Seq<u8>,
    scripts: Seq<Script>,
)
    requires
        is_segmentation(runs, text, levels, scripts),
    ensures
        joined_text(runs) == text,
{
    if runs.len() == 0 {
        assert(text =~= Seq::<char>::empty());
    } else {
        lemma_joined_prefix(runs, text, levels, scripts, runs.len() as int);
        assert(runs.take(runs.len() as int) == runs);
        assert(text.subrange(0, text.len() as int) == text);
    }
}

/// The first `count` runs of a segmentation join to the text before the
/// end of the last of them.
proof fn lemma_joined_prefix(
    runs: Seq<Run>,
    text: Seq<char>,
    levels: Seq<u8>,
    scripts: Seq<Script>,
    count: int,
)
    requires
        is_segmentation(runs, text, levels, scripts),
        0 < count <= runs.len(),
    ensures
        joined_text(runs.take(count)) == text.subrange(0, runs[count - 1].end as int),
    decreases count,
{
    let head = runs.take(count - 1);
    let run = runs[count - 1];
    assert(run_matches(run, text, levels, scripts));
    assert(runs.take(count) == head.push(run));
    if count == 1 {
        assert(head =~= Seq::<Run>::empty());
        assert(joined_text(head) =~= text.subrange(0, 0));
    } else {
        lemma_joined_prefix(runs, text, levels, scripts, count - 1);
        assert(runs[count - 1].start == runs[count - 2].end);
    }
    lemma_joined_push(head, run, text);
}

/// A text has one segmentation only: two lists of runs that both segment
/// it hold the same runs.
pub proof fn lemma_segmentation_unique(
    one: Seq<Run>,
    other: Seq<Run>,
    text: Seq<char>,
    levels: Seq<u8>,
    scripts: Seq<Script>,
)
    requires
        is_segmentation(one, text, levels, scripts),
        is_segmentation(other, text, levels, scripts),
    ensures
        one.len() == other.len(),
        forall|k: int|
            0 <= k < one.len() ==> {
                &&& (#[trigger] one[k]).start == other[k].start
                &&& one[k].end == other[k].end
                &&& one[k].text@ == other[k].text@
                &&& one[k].level == other[k].level
                &&& one[k].script == other[k].script
            },
{
    if one.len() <= other.len() {
        lemma_same_runs(one, other, text, levels, scripts, one.len() as int);
        if one.len() > 0 && one.len() < other.len() {
            assert(run_matches(other[one.len() as int], text, levels, scripts));
            assert(other[one.len() as int].start == other[one.len() - 1].end);
        }
    } else {
        lemma_same_runs(other, one, text, levels, scripts, other.len() as int);
        if other.len() > 0 {
            assert(run_matches(one[other.len() as int], text, levels, scripts));
            assert(one[other.len() as int].start == one[other.len() - 1].end);
        }
    }
    assert forall|k: int| 0 <= k < one.len() implies {
        &&& (#[trigger] one[k]).start == other[k].start
        &&& one[k].end == other[k].end
        &&& one[k].text@ == other[k].text@
        &&& one[k].level == other[k].level
        &&& one[k].script == other[k].script
    } by {
        assert(run_matches(one[k], text, levels, scripts));
        assert(run_matches(other[k], text, levels, scripts));
        assert(other[k].start == one[k].start);
    }
}

/// The first `count` runs of two segmentations of a text begin and end at
/// the same places.
proof fn lemma_same_runs(
    one: Seq<Run>,
    other: Seq<Run>,
    text: Seq<char>,
    levels: Seq<u8>,
    scripts: Seq<Script>,
    count: int,
)
    requires
        is_segmentation(one, text, levels, scripts),
        is_segmentation(other, text, levels, scripts),
        0 <= count <= one.len() <= other.len(),
    ensures
        forall|k: int|
            0 <= k < count ==> (#[trigger] other[k]).start == one[k].start && other[k].end
                == one[k].end,
    decreases count,
{
    if count > 0 {
        lemma_same_runs(one, other, text, levels, scripts, count - 1);
        let k = count - 1;
        let a = one[k];
        let b = other[k];
        assert(run_matches(a, text, levels, scripts));
        assert(run_matches(b, text, levels, scripts));
        if k > 0 {
            assert(other[k - 1].end == one[k - 1].end);
            assert(a.start == one[k - 1].end);
            assert(b.start == other[k - 1].end);
        }
        assert(a.start == b.start);
        if a.end < b.end {
            assert(k + 1 < one.len());
            assert(run_matches(one[k + 1], text, levels, scripts));
            assert(one[k + 1].start == a.end);
            assert(breaks_before(levels, scripts, a.end as int));
        }
        if b.end < a.end {
            assert(k + 1 < other.len());
            assert(run_matches(other[k + 1], text, levels, scripts));
            assert(other[k + 1].start == b.end);
            assert(breaks_before(levels, scripts, b.end as int));
        }
    }
}

/// Inside a run of a segmentation every character has the level of the
/// run.
pub proof fn lemma_run_level_uniform(
    runs: Seq<Run>,
    text: Seq<char>,
    levels: Seq<u8>,
    scripts: Seq<Script>,
    k: int,
    i: int,
)
    requires
        is_segmentation(runs, text, levels, scripts),
        0 <= k < runs.len(),
        runs[k].start <= i < runs[k].end,
    ensures
        levels[i] == runs[k].level,
    decreases i - runs[k].start,
{
    assert(run_matches(runs[k], text, levels, scripts));
    if i > runs[k].start {
        lemma_run_level_uniform(runs, text, levels, scripts, k, i - 1);
        assert(!breaks_before(levels, scripts, i));
    }
}

/// While no character has had a script of its own, the common script
/// stays in force.
proof fn lemma_carried_over_neutrals(scripts: Seq<Script>, upto: int)
    requires
        0 <= upto <= scripts.len(),
        forall|j: int| 0 <= j < upto ==> scripts[j].neutral(),
    ensures
        carried_script(scripts, upto) == Script::common_spec(),
    decreases upto,
{
    if upto > 0 {
        lemma_carried_over_neutrals(scripts, upto - 1);
    }
}

/// Where no run ends between `from` and `upto`, the script in force at
/// `from`, once it is a script of its own, stays in force up to `upto`.
proof fn lemma_carried_without_break(
    levels: Seq<u8>,
    scripts: Seq<Script>,
    from: int,
    upto: int,
)
    requires
        0 < from <= upto <= scripts.len(),
        !carried_script(scripts, from).neutral(),
        forall|i: int| from <= i < upto ==> !breaks_before(levels, scripts, i),
    ensures
        carried_script(scripts, upto) == carried_script(scripts, from),
    decreases upto - from,
{
    if from < upto {
        lemma_carried_without_break(levels, scripts, from, upto - 1);
        assert(!breaks_before(levels, scripts, upto - 1));
    }
}

/// Characters without a script of their own that come before the first
/// character with one take over its script, and cause no run of their own:
/// up to that character runs end only where the level changes, and both the
/// run that holds it and a run that ends just before it carry its script.
pub proof fn lemma_leading_neutrals_adopt(
    runs: Seq<Run>,
    text: Seq<char>,
    levels: Seq<u8>,
    scripts: Seq<Script>,
    first: int,
    k: int,
)
    requires
        is_segmentation(runs, text, levels, scripts),
        levels.len() == text.len(),
        scripts.len() == text.len(),
        0 <= first < text.len(),
        forall|j: int| 0 <= j < first ==> scripts[j].neutral(),
        !scripts[first].neutral(),
        0 <= k < runs.len(),
        runs[k].start <= first <= runs[k].end,
    ensures
        runs[k].script == scripts[first],
        forall|i: int|
            0 < i <= first ==> (breaks_before(levels, scripts, i) <==> levels[i] != levels[i - 1]),
{
    lemma_carried_over_neutrals(scripts, first);
    assert forall|i: int| 0 < i <= first implies (breaks_before(levels, scripts, i) <==> levels[i]
        != levels[i - 1]) by {
        lemma_carried_over_neutrals(scripts, i);
    }
    let run = runs[k];
    assert(run_matches(run, text, levels, scripts));
    assert(carried_script(scripts, first + 1) == scripts[first]);
    if run.end > first {
        if run.end > first + 1 {
            lemma_carried_without_break(levels, scripts, first + 1, run.end as int);
        }
    }
}

/// Adding the slice that follows the covered prefix extends the joined text
/// by that slice.
proof fn lemma_joined_push(runs: Seq<Run>, run: Run, text: Seq<char>)
    requires
        0 <= run.start <= run.end <= text.len(),
        run.text@ == text.subrange(run.start as int, run.end as int),
        joined_text(runs) == text.subrange(0, run.start as int),
    ensures
        joined_text(runs.push(run)) == text.subrange(0, run.end as int),
{
    assert(runs.push(run).drop_last() == runs);
    assert(runs.push(run).last() == run);
    assert(text.subrange(0, run.start as int) + text.subrange(run.start as int, run.end as int)
        == text.subrange(0, run.end as int));
}

} // verus!
