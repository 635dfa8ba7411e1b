//! Derivatives of cached videos with the audio shifted.
//!
//! A derivative is made once and kept under a name that its song, the
//! checksum of the video and the offset determine. Making one is costly, so
//! a task that is already running is not started a second time: whoever
//! submits it again is told so at once and serves the original instead.
//!
//! The offset is carried as the text that stands for it in file names.

use vstd::prelude::*;

use crate::cdn::{ChecksumError, ChecksumType};
use crate::text::{append_chars, append_str, decimal, decimal_chars, string_of};
use crate::types::SongId;

verus! {

/// One derivative to make.
#[derive(Debug, Clone)]
pub struct CompensatorTask {
    pub song_id: SongId,
    pub song_md5: Option<String>,
    pub input_video_path: String,
    pub audio_offset: String,
}

/// What a task is told apart by.
pub struct TaskKey {
    pub song_id: SongId,
    pub song_md5: Option<Seq<char>>,
    pub input_video_path: Seq<char>,
    pub audio_offset: Seq<char>,
}

impl View for CompensatorTask {
    type V = TaskKey;

    open spec fn view(&self) -> TaskKey {
        TaskKey {
            song_id: self.song_id,
            song_md5: match self.song_md5 {
                Some(md5) => Some(md5@),
                None => None,
            },
            input_video_path: self.input_video_path@,
            audio_offset: self.audio_offset@,
        }
    }
}

impl CompensatorTask {
    /// Whether the two tasks make the same derivative from the same file.
    pub fn same_task(&self, other: &Self) -> (r: bool)
        ensures
            r == (self@ == other@),
    {
        let same_md5 = match (&self.song_md5, &other.song_md5) {
            (Some(a), Some(b)) => *a == *b,
            (None, None) => true,
            _ => false,
        };
        self.song_id == other.song_id && self.input_video_path == other.input_video_path
            && same_md5 && self.audio_offset == other.audio_offset
    }
}

/// What a submitted task is answered with.
#[derive(Debug, Clone, Copy, PartialEq, Eq, Structural)]
pub enum Submission {
    /// The derivative exists; serve it.
    Ready,
    /// The same task is running; serve the original.
    AlreadyRunning,
    /// The task is now recorded as running. Make the derivative, then
    /// report with [`AudioCompensatorServiceImpl::finish`].
    Started,
}

/// The tasks that are running. No task is recorded twice.
pub struct AudioCompensatorServiceImpl {
    running_tasks: Vec<CompensatorTask>,
}

/// Whether `key` is among the tasks.
pub open spec fn is_running(tasks: Seq<CompensatorTask>, key: TaskKey) -> bool {
    exists|i: int| 0 <= i < tasks.len() && (#[trigger] tasks[i])@ == key
}

/// Whether no task occurs twice.
spec fn no_duplicates(tasks: Seq<CompensatorTask>) -> bool {
    forall|i: int, j: int| 0 <= i < j < tasks.len() ==> (#[trigger] tasks[i])@ != (#[trigger] tasks[j])@
}

/// `{cache}/{id}-{md5}-audio-offset-{offset}{tail}`
pub open spec fn derivative_path(
    cache_path: Seq<char>,
    id: SongId,
    md5: Seq<char>,
    audio_offset: Seq<char>,
    tail: Seq<char>,
) -> Seq<char> {
    cache_path + seq!['/'] + decimal(id as nat) + seq!['-'] + md5 + "-audio-offset-"@
        + audio_offset + tail
}

/// The checksum that names a derivative: the one given with the task, else
/// the one the cache index has for the song, else none at all.
pub open spec fn naming_checksum(
    md5: Option<String>,
    indexed: Result<ChecksumType, ChecksumError>,
) -> Seq<char> {
    match md5 {
        Some(m) => m@,
        None => match indexed {
            Ok(c) => c@,
            Err(_) => Seq::empty(),
        },
    }
}

fn derivative(cache_path: &String, id: SongId, md5: &String, audio_offset: &String, tail: &str) -> (path:
    String)
    ensures
        path@ == derivative_path(cache_path@, id, md5@, audio_offset@, tail@),
{
    let mut out: Vec<char> = Vec::new();
    append_str(&mut out, cache_path.as_str());
    out.push('/');
    let id_text = decimal_chars(id as u64);
    append_chars(&mut out, id_text.as_slice());
    out.push('-');
    append_str(&mut out, md5.as_str());
    append_str(&mut out, "-audio-offset-");
    append_str(&mut out, audio_offset.as_str());
    append_str(&mut out, tail);
    string_of(out.as_slice())
}

/// The path of a derivative and of the file it is first written to:
/// `{cache}/{id}-{md5}-audio-offset-{offset}.mp4` and the same ending in
/// `-nocopy.mp4`. `indexed` is the checksum that the cache index has for
/// the song; it is used where the task brings none.
pub fn compute_compensated_file_path(
    cache_path: &String,
    id: SongId,
    audio_offset: &String,
    md5: Option<String>,
    indexed: Result<ChecksumType, ChecksumError>,
) -> (paths: (String, String))
    ensures
        paths.0@ == derivative_path(
            cache_path@,
            id,
            naming_checksum(md5, indexed),
            audio_offset@,
            ".mp4"@,
        ),
        paths.1@ == derivative_path(
            cache_path@,
            id,
            naming_checksum(md5, indexed),
            audio_offset@,
            "-nocopy.mp4"@,
        ),
{
    let md5 = match md5 {
        Some(m) => m,
        None => match indexed {
            Ok(c) => c,
            Err(_) => String::new(),
        },
    };
    (
        derivative(cache_path, id, &md5, audio_offset, ".mp4"),
        derivative(cache_path, id, &md5, audio_offset, "-nocopy.mp4"),
    )
}

/// The song that an entry of the client's queue names. Numbers below one
/// stand for "no song": a custom address, or nothing.
pub fn queue_song_id(song_id: i32) -> (r: Option<SongId>)
    ensures
        r == if song_id > 0 {
            Some(song_id as u32)
        } else {
            None
        },
{
    if song_id > 0 {
        Some(song_id as u32)
    } else {
        None
    }
}

/// The file to serve once a derivative has been asked for: the derivative
/// where there is one, the original where making it failed or was refused.
pub fn delivery_file(original: String, compensated: Option<String>) -> (path: String)
    ensures
        path == match compensated {
            Some(file) => file,
            None => original,
        },
{
    match compensated {
        Some(file) => file,
        None => original,
    }
}

impl AudioCompensatorServiceImpl {
    #[verifier::type_invariant]
    spec fn unique(&self) -> bool {
        no_duplicates(self.running_tasks@)
    }

    /// The tasks that are running.
    pub closed spec fn view(&self) -> Seq<CompensatorTask> {
        self.running_tasks@
    }

    /// Nothing is running.
    pub fn new() -> (service: Self)
        ensures
            service@.len() == 0,
    {
        AudioCompensatorServiceImpl { running_tasks: Vec::new() }
    }

    /// Whether the same task is running.
    pub fn running(&self, task: &CompensatorTask) -> (r: bool)
        ensures
            r == is_running(self@, task@),
    {
        let mut i: usize = 0;
        while i < self.running_tasks.len()
            invariant
                i <= self.running_tasks@.len(),
                forall|j: int| 0 <= j < i ==> (#[trigger] self.running_tasks@[j])@ != task@,
            decreases self.running_tasks.len() - i,
        {
            if task.same_task(&self.running_tasks[i]) {
                return true;
            }
            i += 1;
        }
        false
    }

    /// Takes a task in. Where its derivative exists there is nothing to do.
    /// Where the same task is running it is refused. Else it is recorded as
    /// running, and it is for the caller to make the derivative.
    pub fn submit_new_compensator_task(&mut self, task: &CompensatorTask, derivative_exists: bool) -> (r:
        Submission)
        ensures
            r == if derivative_exists {
                Submission::Ready
            } else if is_running(old(self)@, task@) {
                Submission::AlreadyRunning
            } else {
                Submission::Started
            },
            r is Started ==> final(self)@.len() == old(self)@.len() + 1 && final(self)@.drop_last()
                == old(self)@ && final(self)@.last()@ == task@ && is_running(
                final(self)@,
                task@,
            ),
            !(r is Started) ==> final(self)@ == old(self)@,
    {
        if derivative_exists {
            return Submission::Ready;
        }
        if self.running(task) {
            return Submission::AlreadyRunning;
        }
        proof {
            use_type_invariant(&*self);
        }
        let mut tasks: Vec<CompensatorTask> = Vec::new();
        core::mem::swap(&mut self.running_tasks, &mut tasks);
        let ghost before = tasks@;
        let copy = CompensatorTask {
            song_id: task.song_id,
            song_md5: match &task.song_md5 {
                Some(md5) => Some(md5.clone()),
                None => None,
            },
            input_video_path: task.input_video_path.clone(),
            audio_offset: task.audio_offset.clone(),
        };
        tasks.push(copy);
        proof {
            assert(tasks@.drop_last() =~= before);
            assert forall|i: int, j: int| 0 <= i < j < tasks@.len() implies (
            #[trigger] tasks@[i])@ != (#[trigger] tasks@[j])@ by {
                assert(tasks@[i] == before[i]);
                if j < before.len() {
                    assert(tasks@[j] == before[j]);
                }
            }
        }
        assert(tasks@[before.len() as int]@ == task@);
        self.running_tasks = tasks;
        Submission::Started
    }

    /// Records that a task has ended, whatever came of it. The same task
    /// can then be taken in again.
    pub fn finish(&mut self, task: &CompensatorTask)
        ensures
            !is_running(final(self)@, task@),
            forall|key: TaskKey|
                key != task@ ==> is_running(final(self)@, key) == is_running(old(self)@, key),
            final(self)@.len() <= old(self)@.len(),
    {
        proof {
            use_type_invariant(&*self);
        }
        let mut tasks: Vec<CompensatorTask> = Vec::new();
        core::mem::swap(&mut self.running_tasks, &mut tasks);
        let ghost before = tasks@;
        let mut i: usize = 0;
        while i < tasks.len()
            invariant
                i <= tasks@.len(),
                tasks@.len() <= before.len(),
                no_duplicates(tasks@),
                forall|j: int| 0 <= j < i ==> (#[trigger] tasks@[j])@ != task@,
                forall|key: TaskKey|
                    key != task@ ==> is_running(tasks@, key) == is_running(before, key),
            decreases tasks.len() - i,
        {
            if task.same_task(&tasks[i]) {
                let ghost prior = tasks@;
                let _ = tasks.remove(i);
                proof {
                    assert forall|j: int| 0 <= j < tasks@.len() implies #[trigger] tasks@[j]
                        == prior[if j < i { j } else { j + 1 }] by {}
                    assert forall|a: int, b: int| 0 <= a < b < tasks@.len() implies (
                    #[trigger] tasks@[a])@ != (#[trigger] tasks@[b])@ by {
                        let x = if a < i { a } else { a + 1 };
                        let y = if b < i { b } else { b + 1 };
                        assert(tasks@[a] == prior[x]);
                        assert(tasks@[b] == prior[y]);
                    }
                    assert forall|j: int| 0 <= j < i implies (#[trigger] tasks@[j])@ != task@ by {
                        assert(tasks@[j] == prior[j]);
                    }
                    assert forall|key: TaskKey| key != task@ implies is_running(tasks@, key)
                        == is_running(prior, key) by {
                        if is_running(tasks@, key) {
                            let j = choose|j: int|
                                0 <= j < tasks@.len() && (#[trigger] tasks@[j])@ == key;
                            let x = if j < i { j } else { j + 1 };
                            assert(tasks@[j] == prior[x]);
                            assert(prior[x]@ == key);
                        }
                        if is_running(prior, key) {
                            let x = choose|x: int|
                                0 <= x < prior.len() && (#[trigger] prior[x])@ == key;
                            let j = if x < i { x } else { x - 1 };
                            assert(tasks@[j] == prior[x]);
                            assert(tasks@[j]@ == key);
                        }
                    }
                }
            } else {
                i += 1;
            }
        }
        self.running_tasks = tasks;
    }
}

} // verus!
