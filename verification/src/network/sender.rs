//! The decisions of sending a file, or every file below a directory: where
//! each file is read from and under which sub path it goes out, what is
//! logged after each step, when sending stops, and what the settings
//! remember once everything went out.
//!
//! Walking the directory, reading the files and sending the packets are
//! done by the caller, one file after the other.
use crate::network::connection_control::SettingsWrite;
use crate::network::file_transmission::{error_message as packing_error_message, Error as PackingError};
use crate::text::{lemma_split_append, push_str, split};
use vstd::prelude::*;

verus! {

/// Settings key under which the last file or directory sent in full is
/// kept.
pub const LAST_SEND_PATH: &'static str = "last_send_path";

/// What follows a step of sending: the message to log, and whether to go on
/// with the next file or stop.
pub enum SendStep {
    Continue(String),
    Stop(String),
}

/// Where a file to send is read from: its directory, and its path below
/// that directory, which is the path the receiver writes it to.
pub struct FileLocation {
    pub directory: String,
    pub sub_path: String,
}

/// The texts of an optional string.
pub open spec fn text_of(o: Option<String>) -> Option<Seq<char>> {
    match o {
        Some(s) => Some(s@),
        None => None,
    }
}

/// The directory and sub path of a location, or the message of the failure.
pub open spec fn location_view(r: Result<FileLocation, String>) -> Result<
    (Seq<char>, Seq<char>),
    Seq<char>,
> {
    match r {
        Ok(l) => Ok((l.directory@, l.sub_path@)),
        Err(m) => Err(m@),
    }
}

/// The message logged when a file found below the chosen path does not lie
/// below the directory the sub paths are taken from.
pub open spec fn not_contained_message(file_label: Seq<char>, root_label: Seq<char>) -> Seq<
    char,
> {
    "file path "@ + file_label + " does not contain passed path "@ + root_label
}

/// Where a file is sent from. `root` is the directory the sub paths are
/// taken from (the parent of the chosen path), `relative` the file's path
/// relative to `root` (`None` when it does not lie below `root`), and
/// `file_parent` the directory of the file itself. A chosen file is read from
/// its own directory; the files of a chosen directory are read from `root`.
/// Either way the sub path starts at `root`, so that the receiver rebuilds
/// the chosen directory with its sub directories.
pub open spec fn location_of(
    root: Seq<char>,
    path_is_file: bool,
    relative: Option<Seq<char>>,
    file_parent: Option<Seq<char>>,
    file_label: Seq<char>,
    root_label: Seq<char>,
) -> Result<(Seq<char>, Seq<char>), Seq<char>> {
    match relative {
        None => Err(not_contained_message(file_label, root_label)),
        Some(sub_path) => if path_is_file {
            match file_parent {
                Some(directory) => Ok((directory, sub_path)),
                None => Err("unable to extract directory"@),
            }
        } else {
            Ok((root, sub_path))
        },
    }
}

/// A path component with no special meaning on any platform: not empty,
/// no separator (`/` or `\\`), no `:` (which starts a drive prefix on some
/// platforms), and neither `.` nor `..`.
pub open spec fn plain_component(c: Seq<char>) -> bool {
    &&& c.len() > 0
    &&& forall|i: int| 0 <= i < c.len() ==> c[i] != '/' && c[i] != '\\' && c[i] != ':'
    &&& c != seq!['.']
    &&& c != seq!['.', '.']
}

/// A relative path of plain components separated by single `/`.
pub open spec fn plain_relative(p: Seq<char>) -> bool {
    forall|i: int| 0 <= i < split(p, '/').len() ==> plain_component(#[trigger] split(p, '/')[i])
}

/// A directory written plainly: the empty path, the root `/`, or plain
/// components, with or without a leading `/`.
pub open spec fn plain_directory(d: Seq<char>) -> bool {
    ||| d.len() == 0
    ||| d == seq!['/']
    ||| plain_relative(d)
    ||| d.len() > 0 && d[0] == '/' && plain_relative(d.drop_first())
}

/// `rest` below the directory `d`, as `Path::join` writes it for plain
/// paths: `rest` itself below the empty path, `/rest` below the root, and
/// `d/rest` otherwise.
pub open spec fn joined(d: Seq<char>, rest: Seq<char>) -> Seq<char> {
    if d.len() == 0 {
        rest
    } else if d == seq!['/'] {
        d + rest
    } else {
        d + seq!['/'] + rest
    }
}

/// A plain component is a plain relative path.
proof fn lemma_component_is_relative(c: Seq<char>)
    requires
        plain_component(c),
    ensures
        plain_relative(c),
        split(c, '/') == seq![c],
{
    lemma_split_append(Seq::empty(), c, '/');
    assert(Seq::<char>::empty() + c =~= c);
    assert(seq![Seq::<char>::empty()].update(0, Seq::<char>::empty() + c) =~= seq![c]);
}

/// `Path::strip_prefix`: the text of `path` relative to `base`, or `None`
/// when `base` is not a prefix of `path`. Stated for plain paths only: when
/// `path` is a plain relative path `rest` below a plainly written `base`, the
/// result is `rest`. Elsewhere how paths are cut into components depends on
/// the platform's path syntax, and nothing is stated.
#[verifier::external_body]
fn path_strip_prefix(path: &str, base: &str) -> (r: Option<String>)
    ensures
        forall|rest: Seq<char>|
            plain_directory(base@) && plain_relative(rest) && #[trigger] joined(base@, rest)
                == path@ ==> text_of(r) == Some(rest),
{
    match std::path::Path::new(path).strip_prefix(base) {
        Ok(relative) => Some(relative.to_string_lossy().into_owned()),
        Err(_) => None,
    }
}

/// `Path::parent`: the text of `path` without its final component, or
/// `None` when it has none. Stated for plain paths only: for a plain
/// component `name` below a plainly written directory `d`, the result is
/// `d`. Elsewhere how paths are cut into components depends on the
/// platform's path syntax, and nothing is stated.
#[verifier::external_body]
fn path_parent(path: &str) -> (r: Option<String>)
    ensures
        forall|d: Seq<char>, name: Seq<char>|
            plain_directory(d) && plain_component(name) && #[trigger] joined(d, name) == path@
                ==> text_of(r) == Some(d),
{
    match std::path::Path::new(path).parent() {
        Some(parent) => Some(parent.to_string_lossy().into_owned()),
        None => None,
    }
}

/// The location of a file to send, from the file's path relative to `root`
/// and from its directory (see `location_of`). The labels name the file and
/// `root` in the message of a failure.
pub fn choose_location(
    root: &str,
    path_is_file: bool,
    relative: Option<String>,
    file_parent: Option<String>,
    file_label: &str,
    root_label: &str,
) -> (r: Result<FileLocation, String>)
    ensures
        location_view(r) == location_of(
            root@,
            path_is_file,
            text_of(relative),
            text_of(file_parent),
            file_label@,
            root_label@,
        ),
{
    match relative {
        None => {
            let mut m = String::new();
            push_str(&mut m, "file path ");
            push_str(&mut m, file_label);
            push_str(&mut m, " does not contain passed path ");
            push_str(&mut m, root_label);
            Err(m)
        },
        Some(sub_path) => if path_is_file {
            match file_parent {
                Some(directory) => Ok(FileLocation { directory, sub_path }),
                None => {
                    let mut m = String::new();
                    push_str(&mut m, "unable to extract directory");
                    Err(m)
                },
            }
        } else {
            let mut directory = String::new();
            push_str(&mut directory, root);
            Ok(FileLocation { directory, sub_path })
        },
    }
}

/// The location of the file at `file_path`, found below the chosen path,
/// whose parent is `root`: its path relative to `root` and, for a chosen
/// file, its directory are taken from `std::path`, and the location is then
/// as `choose_location` gives it for whatever those were.
pub fn locate_file(
    root: &str,
    path_is_file: bool,
    file_path: &str,
    file_label: &str,
    root_label: &str,
) -> (r: Result<FileLocation, String>)
    ensures
        exists|relative: Option<Seq<char>>, file_parent: Option<Seq<char>>|
            location_view(r) == location_of(
                root@,
                path_is_file,
                relative,
                file_parent,
                file_label@,
                root_label@,
            ),
        !path_is_file ==> forall|rest: Seq<char>|
            plain_directory(root@) && plain_relative(rest) && #[trigger] joined(root@, rest)
                == file_path@ ==> location_view(r) == Ok::<(Seq<char>, Seq<char>), Seq<char>>(
                (root@, rest),
            ),
        path_is_file ==> forall|name: Seq<char>|
            plain_directory(root@) && plain_component(name) && #[trigger] joined(root@, name)
                == file_path@ ==> location_view(r) == Ok::<(Seq<char>, Seq<char>), Seq<char>>(
                (root@, name),
            ),
{
    let relative = path_strip_prefix(file_path, root);
    let file_parent = if relative.is_some() && path_is_file {
        path_parent(file_path)
    } else {
        None
    };
    let ghost relative_text = text_of(relative);
    let ghost parent_text = text_of(file_parent);
    let r = choose_location(root, path_is_file, relative, file_parent, file_label, root_label);
    assert(location_view(r) == location_of(
        root@,
        path_is_file,
        relative_text,
        parent_text,
        file_label@,
        root_label@,
    ));
    assert forall|name: Seq<char>|
        path_is_file && plain_directory(root@) && plain_component(name) && #[trigger] joined(
            root@,
            name,
        ) == file_path@ implies location_view(r) == Ok::<(Seq<char>, Seq<char>), Seq<char>>(
        (root@, name),
    ) by {
        lemma_component_is_relative(name);
    }
    r
}

/// Whether sending may begin: only when the chosen path exists.
pub fn check_path_exists(exists: bool) -> (r: Result<(), String>)
    ensures
        r is Ok <==> exists,
        r matches Err(m) ==> m@ == "file path does not exist"@,
{
    if exists {
        Ok(())
    } else {
        let mut m = String::new();
        push_str(&mut m, "file path does not exist");
        Err(m)
    }
}

/// The message logged before a file is packed and sent.
pub fn sending_message(file_label: &str) -> (r: String)
    ensures
        r@ == "sending file "@ + file_label@,
{
    let mut r = String::new();
    push_str(&mut r, "sending file ");
    push_str(&mut r, file_label);
    r
}

/// Packing a file failed: its error is logged and sending stops.
pub fn packing_failed(error: &PackingError) -> (r: SendStep)
    ensures
        r matches SendStep::Stop(m) && packing_error_message(*error, m@),
{
    SendStep::Stop(error.message())
}

/// What follows sending the packet of a file: on success the file is logged
/// as sent and sending goes on with the next file; on failure the error is
/// logged and sending stops.
pub fn after_file_sent(file_label: &str, outcome: Result<(), String>) -> (r: SendStep)
    ensures
        outcome matches Err(e) ==> (r matches SendStep::Stop(m) && m@
            == "error while sending file "@ + file_label@ + ":\n"@ + e@),
        outcome is Ok ==> (r matches SendStep::Continue(m) && m@ == "sent file "@ + file_label@),
{
    let mut m = String::new();
    match outcome {
        Ok(()) => {
            push_str(&mut m, "sent file ");
            push_str(&mut m, file_label);
            SendStep::Continue(m)
        },
        Err(e) => {
            push_str(&mut m, "error while sending file ");
            push_str(&mut m, file_label);
            push_str(&mut m, ":\n");
            push_str(&mut m, e.as_str());
            SendStep::Stop(m)
        },
    }
}

/// Every file went out: the settings remember the chosen path.
pub fn send_completed(path: String) -> (w: SettingsWrite)
    ensures
        w.key == LAST_SEND_PATH,
        w.value@ == path@,
{
    SettingsWrite { key: LAST_SEND_PATH, value: path }
}

/// How far sending has come: the chosen path, how many files there are to
/// send, how many of them went out, and whether sending stopped.
pub struct SendProgress {
    path: String,
    file_count: usize,
    sent: usize,
    stopped: bool,
}

/// The model of a `SendProgress`.
pub struct ProgressView {
    pub path: Seq<char>,
    pub file_count: nat,
    pub sent: nat,
    pub stopped: bool,
}

impl View for SendProgress {
    type V = ProgressView;

    closed spec fn view(&self) -> ProgressView {
        ProgressView {
            path: self.path@,
            file_count: self.file_count as nat,
            sent: self.sent as nat,
            stopped: self.stopped,
        }
    }
}

/// Whether every file went out and sending did not stop.
pub open spec fn all_sent(p: ProgressView) -> bool {
    !p.stopped && p.sent == p.file_count
}

/// The progress after a file: one more sent when `continued`, else
/// stopped; unchanged once stopped or once every file is counted.
pub open spec fn recorded(p: ProgressView, continued: bool) -> ProgressView {
    if p.stopped || p.sent >= p.file_count {
        p
    } else if continued {
        ProgressView { sent: p.sent + 1, ..p }
    } else {
        ProgressView { stopped: true, ..p }
    }
}

/// The progress after the steps `continued`, oldest first.
pub open spec fn recorded_all(p: ProgressView, continued: Seq<bool>) -> ProgressView
    decreases continued.len(),
{
    if continued.len() == 0 {
        p
    } else {
        recorded(recorded_all(p, continued.drop_last()), continued.last())
    }
}

/// The progress before any file of `file_count` files at `path`.
pub open spec fn start(path: Seq<char>, file_count: nat) -> ProgressView {
    ProgressView { path, file_count, sent: 0, stopped: false }
}

impl SendProgress {
    #[verifier::type_invariant]
    spec fn sent_at_most_all(self) -> bool {
        self.sent <= self.file_count
    }

    /// Nothing sent yet of the `file_count` files found at `path`.
    pub fn new(path: String, file_count: usize) -> (r: Self)
        ensures
            r@ == start(path@, file_count as nat),
    {
        Self { path, file_count, sent: 0, stopped: false }
    }

    /// Records what followed a file: one more file sent, or sending
    /// stopped. Once stopped, or once every file is counted, nothing changes.
    pub fn record(&mut self, step: &SendStep)
        ensures
            final(self)@ == recorded(old(self)@, step is Continue),
    {
        proof {
            use_type_invariant(&*self);
        }
        if self.stopped || self.sent == self.file_count {
            return;
        }
        match step {
            SendStep::Continue(_) => {
                self.sent = self.sent + 1;
            },
            SendStep::Stop(_) => {
                self.stopped = true;
            },
        }
    }

    /// Whether sending stopped.
    pub fn is_stopped(&self) -> (r: bool)
        ensures
            r == self@.stopped,
    {
        self.stopped
    }

    /// The settings write that remembers the chosen path, given only when
    /// every file went out.
    pub fn finish(self) -> (r: Option<SettingsWrite>)
        ensures
            r is Some <==> all_sent(self@),
            r matches Some(w) ==> w.key == LAST_SEND_PATH && w.value@ == self@.path,
    {
        proof {
            use_type_invariant(&self);
        }
        if !self.stopped && self.sent == self.file_count {
            Some(send_completed(self.path))
        } else {
            None
        }
    }
}

/// The chosen path is remembered exactly when every file went out: from
/// the start, after any sequence of steps, every file is sent and sending has
/// not stopped if and only if the first `file_count` steps all went on.
pub proof fn law_remembered_only_when_all_sent(
    path: Seq<char>,
    file_count: nat,
    continued: Seq<bool>,
)
    ensures
        all_sent(recorded_all(start(path, file_count), continued)) <==> (continued.len()
            >= file_count && forall|i: int| 0 <= i < file_count ==> continued[i]),
    decreases continued.len(),
{
    lemma_progress(path, file_count, continued);
}

/// The progress after `continued`: as many files sent as steps went on
/// before the first stop, at most all; stopped when a stop came before every
/// file was sent.
proof fn lemma_progress(path: Seq<char>, file_count: nat, continued: Seq<bool>)
    ensures
        ({
            let p = recorded_all(start(path, file_count), continued);
            &&& p.path == path
            &&& p.file_count == file_count
            &&& p.sent <= file_count
            &&& p.sent <= continued.len()
            &&& forall|i: int| 0 <= i < p.sent ==> continued[i]
            &&& p.stopped ==> p.sent < file_count && p.sent < continued.len() && !continued[p.sent as int]
            &&& !p.stopped ==> (p.sent == file_count || p.sent == continued.len())
        }),
    decreases continued.len(),
{
    if continued.len() > 0 {
        let prev = continued.drop_last();
        lemma_progress(path, file_count, prev);
        assert(forall|i: int| 0 <= i < prev.len() ==> prev[i] == continued[i]);
        let q = recorded_all(start(path, file_count), prev);
        let p = recorded_all(start(path, file_count), continued);
        assert(p == recorded(q, continued.last()));
        if !q.stopped && q.sent < file_count {
            assert(q.sent == prev.len());
            assert(continued.last() == continued[q.sent as int]);
        }
    }
}

} // verus!
