//! The ordered queue of write-back commands that a build hands to whoever
//! owns the output directory.

use vstd::prelude::*;

verus! {

/// What a command looks like in contracts.
pub enum CommandView {
    Write(Seq<char>, Seq<char>),
    Copy(Seq<char>, Seq<char>),
}

/// One request to the write-back side.
pub enum Command {
    /// Write the text (second) to the destination path (first).
    Write(String, String),
    /// Copy the source file (first) to the destination path (second).
    Copy(String, String),
}

impl View for Command {
    type V = CommandView;

    open spec fn view(&self) -> CommandView {
        match self {
            Command::Write(path, content) => CommandView::Write(path@, content@),
            Command::Copy(from, to) => CommandView::Copy(from@, to@),
        }
    }
}

/// The producer's end of the queue. Commands leave it in the order in which
/// they were enqueued.
pub struct Enqueuer {
    pub queue: Vec<Command>,
}

impl View for Enqueuer {
    type V = Seq<CommandView>;

    open spec fn view(&self) -> Seq<CommandView> {
        self.queue@.map_values(|c: Command| c@)
    }
}

impl Enqueuer {
    /// A queue that holds nothing yet.
    pub fn new() -> (queue: Enqueuer)
        ensures
            queue@ == Seq::<CommandView>::empty(),
    {
        let queue = Enqueuer { queue: Vec::new() };
        assert(queue@ =~= Seq::<CommandView>::empty());
        queue
    }

    /// Enqueues the writing of `content` to `path`.
    pub fn file(&mut self, path: String, content: String)
        ensures
            final(self)@ == old(self)@.push(CommandView::Write(path@, content@)),
    {
        self.queue.push(Command::Write(path, content));
        assert(self@ =~= old(self)@.push(CommandView::Write(path@, content@)));
    }

    /// Enqueues the copying of `from` to `to`.
    pub fn copy(&mut self, from: String, to: String)
        ensures
            final(self)@ == old(self)@.push(CommandView::Copy(from@, to@)),
    {
        self.queue.push(Command::Copy(from, to));
        assert(self@ =~= old(self)@.push(CommandView::Copy(from@, to@)));
    }

    /// Enqueues the copying of `from` to `to` if `from` is known to be an
    /// existing regular file, as `is_file` reports; otherwise the queue
    /// stays as it is.
    pub fn copy_maybe(&mut self, from: String, to: String, is_file: bool)
        ensures
            final(self)@ == if is_file {
                old(self)@.push(CommandView::Copy(from@, to@))
            } else {
                old(self)@
            },
    {
        if !is_file {
            return ;
        }
        self.copy(from, to);
    }

    /// Hands the queued commands over, first enqueued first.
    pub fn into_commands(self) -> (commands: Vec<Command>)
        ensures
            commands@.map_values(|c: Command| c@) == self@,
    {
        self.queue
    }
}

} // verus!
