//! Console commands: `send <directory> <sub path>` and
//! `receive <directory>`.
//!
//! Input is collected in a buffer that keeps every line read; a command is
//! read from the whole buffer: it is cut at each space, every piece is
//! trimmed of white space, the first piece names the command and the
//! following pieces are its arguments.
use crate::text::{
    chars_equal, chars_of, is_white_space, lemma_split_append, lemma_split_nonempty,
    lemma_split_push_sep, push_str, split, split_bounds, string_of, trim, trim_bounds,
};
use vstd::prelude::*;

verus! {

/// A command given on the console.
pub enum Command {
    /// Send a file: the directory and the file's sub path in it.
    Send([String; 2]),
    /// Receive a file into the given directory.
    Receive(String),
}

/// A command as text.
pub enum CommandView {
    Send(Seq<char>, Seq<char>),
    Receive(Seq<char>),
}

impl View for Command {
    type V = CommandView;

    open spec fn view(&self) -> CommandView {
        match self {
            Command::Send(args) => CommandView::Send(args@[0]@, args@[1]@),
            Command::Receive(dir) => CommandView::Receive(dir@),
        }
    }
}

/// The word `send`.
pub open spec fn send_word() -> Seq<char> {
    seq!['s', 'e', 'n', 'd']
}

/// The word `receive`.
pub open spec fn receive_word() -> Seq<char> {
    seq!['r', 'e', 'c', 'e', 'i', 'v', 'e']
}

/// The pieces of `text` between spaces, each trimmed of white space.
pub open spec fn command_arguments(text: Seq<char>) -> Seq<Seq<char>> {
    split(text, ' ').map_values(|piece: Seq<char>| trim(piece))
}

/// The command that `text` gives, or `None` when its first piece names no
/// command or the command lacks arguments.
pub open spec fn command_of(text: Seq<char>) -> Option<CommandView> {
    let args = command_arguments(text);
    if args[0] == send_word() {
        if args.len() >= 3 {
            Some(CommandView::Send(args[1], args[2]))
        } else {
            None
        }
    } else if args[0] == receive_word() {
        if args.len() >= 2 {
            Some(CommandView::Receive(args[1]))
        } else {
            None
        }
    } else {
        None
    }
}

/// The command that `text` gives (see `command_of`).
pub fn parse_command(text: &str) -> (r: Option<Command>)
    ensures
        r matches Some(c) ==> command_of(text@) == Some(c@),
        r is None <==> command_of(text@) is None,
{
    let chars = chars_of(text);
    let bounds = split_bounds(chars.as_slice(), ' ');
    let ghost args = command_arguments(chars@);
    proof {
        lemma_split_nonempty(chars@, ' ');
    }
    let (first_from, first_to) = bounds[0];
    let (from, to) = trim_bounds(chars.as_slice(), first_from, first_to);
    let send: [char; 4] = ['s', 'e', 'n', 'd'];
    let receive: [char; 7] = ['r', 'e', 'c', 'e', 'i', 'v', 'e'];
    let is_send = chars_equal(&chars[from..to], send.as_slice());
    let is_receive = chars_equal(&chars[from..to], receive.as_slice());
    proof {
        assert(send@ =~= send_word());
        assert(receive@ =~= receive_word());
        assert(chars@.subrange(from as int, to as int) == args[0]);
    }
    if is_send {
        if bounds.len() >= 3 {
            let (a_from, a_to) = bounds[1];
            let (a_from, a_to) = trim_bounds(chars.as_slice(), a_from, a_to);
            let (b_from, b_to) = bounds[2];
            let (b_from, b_to) = trim_bounds(chars.as_slice(), b_from, b_to);
            let directory = string_of(chars.as_slice(), a_from, a_to);
            let sub_path = string_of(chars.as_slice(), b_from, b_to);
            let pair = [directory, sub_path];
            assert(pair@[0]@ == args[1]);
            assert(pair@[1]@ == args[2]);
            Some(Command::Send(pair))
        } else {
            None
        }
    } else if is_receive {
        if bounds.len() >= 2 {
            let (a_from, a_to) = bounds[1];
            let (a_from, a_to) = trim_bounds(chars.as_slice(), a_from, a_to);
            let directory = string_of(chars.as_slice(), a_from, a_to);
            assert(directory@ == args[1]);
            Some(Command::Receive(directory))
        } else {
            None
        }
    } else {
        None
    }
}

/// Whether a text gives a command: it does, its first piece names no
/// command, or the command lacks arguments.
#[derive(Clone, Copy, PartialEq, Eq, Structural)]
pub enum CommandCheck {
    Valid,
    UnknownCommand,
    MissingArguments,
}

/// Whether `text` gives a command, and if not, why.
pub open spec fn command_check_of(text: Seq<char>) -> CommandCheck {
    let args = command_arguments(text);
    if args[0] == send_word() {
        if args.len() >= 3 {
            CommandCheck::Valid
        } else {
            CommandCheck::MissingArguments
        }
    } else if args[0] == receive_word() {
        if args.len() >= 2 {
            CommandCheck::Valid
        } else {
            CommandCheck::MissingArguments
        }
    } else {
        CommandCheck::UnknownCommand
    }
}

/// A text gives a command exactly when its check finds it valid.
pub proof fn law_valid_exactly_when_command(text: Seq<char>)
    ensures
        command_check_of(text) == CommandCheck::Valid <==> command_of(text) is Some,
{
}

/// Whether `text` gives a command (see `command_check_of`).
pub fn check_command(text: &str) -> (r: CommandCheck)
    ensures
        r == command_check_of(text@),
{
    let chars = chars_of(text);
    let bounds = split_bounds(chars.as_slice(), ' ');
    let ghost args = command_arguments(chars@);
    proof {
        lemma_split_nonempty(chars@, ' ');
    }
    let (first_from, first_to) = bounds[0];
    let (from, to) = trim_bounds(chars.as_slice(), first_from, first_to);
    let send: [char; 4] = ['s', 'e', 'n', 'd'];
    let receive: [char; 7] = ['r', 'e', 'c', 'e', 'i', 'v', 'e'];
    let is_send = chars_equal(&chars[from..to], send.as_slice());
    let is_receive = chars_equal(&chars[from..to], receive.as_slice());
    proof {
        assert(send@ =~= send_word());
        assert(receive@ =~= receive_word());
        assert(chars@.subrange(from as int, to as int) == args[0]);
    }
    if is_send {
        if bounds.len() >= 3 {
            CommandCheck::Valid
        } else {
            CommandCheck::MissingArguments
        }
    } else if is_receive {
        if bounds.len() >= 2 {
            CommandCheck::Valid
        } else {
            CommandCheck::MissingArguments
        }
    } else {
        CommandCheck::UnknownCommand
    }
}

/// Reads commands from lines of console input.
pub struct CommandResolver {
    cmd_buffer: String,
}

impl View for CommandResolver {
    type V = Seq<char>;

    /// All input read so far.
    closed spec fn view(&self) -> Seq<char> {
        self.cmd_buffer@
    }
}

impl CommandResolver {
    /// A resolver that has read nothing yet.
    pub fn new() -> (r: Self)
        ensures
            r@ == Seq::<char>::empty(),
    {
        Self { cmd_buffer: String::new() }
    }

    /// Whether the input read so far followed by `input_line` gives a
    /// command (see `command_check_of`); nothing is read.
    pub fn check_next(&self, input_line: &str) -> (r: CommandCheck)
        ensures
            r == command_check_of(self@ + input_line@),
    {
        let mut text = String::new();
        push_str(&mut text, self.cmd_buffer.as_str());
        push_str(&mut text, input_line);
        check_command(text.as_str())
    }

    /// Adds a line of input to the buffer and reads the command the whole
    /// buffer gives. The buffer must then give a command (see `check_next`).
    pub fn read_next_command(&mut self, input_line: &str) -> (r: Command)
        requires
            command_of(old(self)@ + input_line@) is Some,
        ensures
            final(self)@ == old(self)@ + input_line@,
            command_of(final(self)@) == Some(r@),
    {
        push_str(&mut self.cmd_buffer, input_line);
        parse_command(self.cmd_buffer.as_str()).unwrap()
    }
}

/// The arguments of a command are the pieces of the text between spaces,
/// each trimmed of white space: a `send` command takes the second and third
/// pieces as they are, a `receive` command the second; the first piece is
/// the command's name.
pub proof fn law_command_takes_trimmed_pieces(text: Seq<char>)
    ensures
        command_of(text) matches Some(CommandView::Send(directory, sub_path)) ==> {
            &&& split(text, ' ').len() >= 3
            &&& trim(split(text, ' ')[0]) == send_word()
            &&& directory == trim(split(text, ' ')[1])
            &&& sub_path == trim(split(text, ' ')[2])
        },
        command_of(text) matches Some(CommandView::Receive(directory)) ==> {
            &&& split(text, ' ').len() >= 2
            &&& trim(split(text, ' ')[0]) == receive_word()
            &&& directory == trim(split(text, ' ')[1])
        },
{
}

/// Text without a space and without white space at either end.
pub open spec fn plain_word(w: Seq<char>) -> bool {
    &&& forall|i: int| 0 <= i < w.len() ==> w[i] != ' '
    &&& w.len() > 0 ==> !is_white_space(w[0]) && !is_white_space(w.last())
}

/// Trimming a plain word leaves it as it is.
proof fn lemma_trim_plain(w: Seq<char>)
    requires
        plain_word(w),
    ensures
        trim(w) == w,
{
    assert(w.skip(0) =~= w);
    assert(w.take(w.len() as int) =~= w);
}

/// Splitting text followed by a space and a word without spaces gives the
/// pieces of the text, then the word.
proof fn lemma_split_then_word(s: Seq<char>, w: Seq<char>)
    requires
        forall|i: int| 0 <= i < w.len() ==> w[i] != ' ',
    ensures
        split(s + seq![' '] + w, ' ') == split(s, ' ').push(w),
{
    lemma_split_push_sep(s, ' ');
    assert(s + seq![' '] =~= s.push(' '));
    lemma_split_append(s.push(' '), w, ' ');
    assert(Seq::<char>::empty() + w =~= w);
    assert(split(s, ' ').push(Seq::empty()).update(split(s, ' ').len() as int, w) =~= split(
        s,
        ' ',
    ).push(w));
}

/// Splitting a word without spaces gives that word alone.
proof fn lemma_split_word(w: Seq<char>)
    requires
        forall|i: int| 0 <= i < w.len() ==> w[i] != ' ',
    ensures
        split(w, ' ') == seq![w],
{
    lemma_split_append(Seq::empty(), w, ' ');
    assert(Seq::<char>::empty() + w =~= w);
    assert(seq![Seq::<char>::empty()].update(0, Seq::<char>::empty() + w) =~= seq![w]);
}

/// `send <directory> <sub path>`, with plain words for both, is the command
/// to send that sub path of that directory, character for character.
pub proof fn law_send_command_of_words(directory: Seq<char>, sub_path: Seq<char>)
    requires
        plain_word(directory),
        plain_word(sub_path),
    ensures
        command_of(send_word() + seq![' '] + directory + seq![' '] + sub_path) == Some(
            CommandView::Send(directory, sub_path),
        ),
{
    let first = send_word();
    assert(plain_word(first));
    lemma_split_word(first);
    lemma_split_then_word(first, directory);
    lemma_split_then_word(first + seq![' '] + directory, sub_path);
    lemma_trim_plain(first);
    lemma_trim_plain(directory);
    lemma_trim_plain(sub_path);
    let text = first + seq![' '] + directory + seq![' '] + sub_path;
    let args = command_arguments(text);
    assert(split(text, ' ') =~= seq![first, directory, sub_path]);
    assert(args[0] == first);
    assert(args[1] == directory);
    assert(args[2] == sub_path);
}

/// `receive <directory>`, with a plain word for the directory, is the
/// command to receive into that directory.
pub proof fn law_receive_command_of_word(directory: Seq<char>)
    requires
        plain_word(directory),
    ensures
        command_of(receive_word() + seq![' '] + directory) == Some(
            CommandView::Receive(directory),
        ),
{
    let first = receive_word();
    assert(plain_word(first));
    lemma_split_word(first);
    lemma_split_then_word(first, directory);
    lemma_trim_plain(first);
    lemma_trim_plain(directory);
    let text = first + seq![' '] + directory;
    let args = command_arguments(text);
    assert(split(text, ' ') =~= seq![first, directory]);
    assert(args[0] == first);
    assert(args[1] == directory);
    assert(send_word() != receive_word()) by {
        assert(send_word().len() != receive_word().len());
    }
}

} // verus!
