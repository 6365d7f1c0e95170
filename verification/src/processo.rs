use vstd::prelude::*;

use crate::filesystem::{File, FileSystem, create_fits, create_result, delete_fits, delete_result, holds};
use crate::instruction::{
    chars_to_string, parse_i32, parse_number, split_at_char, split_on, strip_white_space,
    strip_whitespace,
};
use crate::search::{first_match, lemma_first_match};

verus! {

/// Where a process is in its life.
#[derive(Debug, PartialEq, Eq, Structural)]
pub enum State {
    Ready,
    Running,
    Waiting,
    Terminated,
}

/// A process: its place in memory, its quantum, the devices it asks for,
/// and the file operations it still has to run.
#[derive(Debug)]
pub struct Processo {
    pub pid: u16,
    pub offset: u32,
    pub init_time: u32,
    pub priority: usize,
    pub time: u32,
    pub blocks: u32,
    pub printer: usize,
    pub scanner: bool,
    pub modem: bool,
    pub drive: usize,
    pub instructions: Vec<String>,
    pub state: State,
}

impl Processo {
    /// Drops the last instruction, if there is one.
    pub fn pop_instruction(&mut self)
        ensures
            final(self).instructions@ == (if old(self).instructions@.len() > 0 {
                old(self).instructions@.drop_last()
            } else {
                old(self).instructions@
            }),
            final(self).pid == old(self).pid,
            final(self).offset == old(self).offset,
            final(self).init_time == old(self).init_time,
            final(self).priority == old(self).priority,
            final(self).time == old(self).time,
            final(self).blocks == old(self).blocks,
            final(self).printer == old(self).printer,
            final(self).scanner == old(self).scanner,
            final(self).modem == old(self).modem,
            final(self).drive == old(self).drive,
            final(self).state == old(self).state,
    {
        self.instructions.pop();
    }

    /// The next instruction to run.
    pub fn get_instruction(&self) -> (r: &String)
        requires
            self.instructions@.len() > 0,
        ensures
            *r == self.instructions@[0],
    {
        &self.instructions[0]
    }

    /// Drops the next instruction.
    pub fn remove_instruction(&mut self)
        requires
            old(self).instructions@.len() > 0,
        ensures
            final(self).instructions@ == old(self).instructions@.drop_first(),
            final(self).pid == old(self).pid,
            final(self).offset == old(self).offset,
            final(self).init_time == old(self).init_time,
            final(self).priority == old(self).priority,
            final(self).time == old(self).time,
            final(self).blocks == old(self).blocks,
            final(self).printer == old(self).printer,
            final(self).scanner == old(self).scanner,
            final(self).modem == old(self).modem,
            final(self).drive == old(self).drive,
            final(self).state == old(self).state,
    {
        self.instructions.remove(0);
    }

    /// Runs one file operation, given as comma-separated fields (see
    /// `instruction_done`).
    pub fn do_instruction(&self, fs: &mut FileSystem, instruction: &String)
        requires
            instruction_valid(*self, old(fs).fs@, strip_white_space(instruction@)),
        ensures
            instruction_done(*self, old(fs).fs@, strip_white_space(instruction@), final(fs).fs@),
            final(fs).blocks@ == old(fs).blocks@,
    {
        let text = strip_whitespace(instruction);
        self.apply_instruction(fs, &text);
    }

    /// `do_instruction` when the operation is well formed and can be carried out
    /// (see `instruction_valid`); otherwise the disk is left as it is. Returns
    /// whether the operation ran.
    pub fn try_do_instruction(&self, fs: &mut FileSystem, instruction: &String) -> (r: bool)
        ensures
            r == instruction_valid(*self, old(fs).fs@, strip_white_space(instruction@)),
            r ==> instruction_done(
                *self,
                old(fs).fs@,
                strip_white_space(instruction@),
                final(fs).fs@,
            ),
            !r ==> final(fs).fs@ == old(fs).fs@,
            final(fs).blocks@ == old(fs).blocks@,
    {
        let text = strip_whitespace(instruction);
        if self.instruction_is_valid(fs, &text) {
            self.apply_instruction(fs, &text);
            true
        } else {
            false
        }
    }

    /// Whether the operation written in `text`, white space removed, is well
    /// formed and can be carried out (see `instruction_valid`).
    pub fn instruction_is_valid(&self, fs: &FileSystem, text: &Vec<char>) -> (r: bool)
        ensures
            r == instruction_valid(*self, fs.fs@, text@),
    {
        let fields = split_at_char(text, ',');
        if fields.len() < 2 {
            return false;
        }
        proof {
            assert(fields@[1]@ == split_on(text@, ',')[1]);
        }
        if fields[1].len() == 1 && fields[1][0] == '0' {
            proof {
                assert(split_on(text@, ',')[1] =~= seq!['0']);
            }
            if fields.len() < 4 {
                return false;
            }
            proof {
                assert(fields@[3]@ == split_on(text@, ',')[3]);
            }
            match parse_number(&fields[3]) {
                None => false,
                Some(size) => {
                    let (available, v) = fs.storage_available(size);
                    proof {
                        lemma_first_match(fs.fs@, holds(size));
                    }
                    if !available {
                        true
                    } else {
                        proof {
                            let k = first_match(fs.fs@, holds(size))->0;
                            assert(0 <= k < fs.fs.len());
                        }
                        if fs.fs[v].size == size {
                            true
                        } else {
                            let index = fs.fs[v].index as i64 + size as i64;
                            let rest = fs.fs[v].size as i64 - size as i64;
                            i32::MIN as i64 <= index && index <= i32::MAX as i64 && i32::MIN as i64
                                <= rest && rest <= i32::MAX as i64
                        }
                    }
                },
            }
        } else {
            proof {
                assert(split_on(text@, ',')[1] != seq!['0']) by {
                    if split_on(text@, ',')[1] == seq!['0'] {
                        assert(fields@[1]@.len() == 1);
                        assert(fields@[1]@[0] == '0');
                    }
                }
            }
            if fields.len() < 3 {
                return false;
            }
            proof {
                assert(fields@[2]@ == split_on(text@, ',')[2]);
            }
            let name = chars_to_string(&fields[2]);
            fs.deletion_fits(self.pid as i32, #[verifier::truncate] (self.priority as i32), &name)
        }
    }

    /// Runs the operation written in `text`, white space removed: with second
    /// field `0` it places a file named by the third field, of the size that the
    /// fourth field writes, in the first free span that can hold it, if there is
    /// one; otherwise it deletes the first file named by the third field, if this
    /// process may (see `instruction_done`).
    pub fn apply_instruction(&self, fs: &mut FileSystem, text: &Vec<char>)
        requires
            instruction_valid(*self, old(fs).fs@, text@),
        ensures
            instruction_done(*self, old(fs).fs@, text@, final(fs).fs@),
            final(fs).blocks@ == old(fs).blocks@,
    {
        let fields = split_at_char(text, ',');
        proof {
            assert(fields@[1]@ == split_on(text@, ',')[1]);
        }
        // kind of operation
        if fields[1].len() == 1 && fields[1][0] == '0' {
            proof {
                assert(split_on(text@, ',')[1] =~= seq!['0']);
                assert(fields@[3]@ == split_on(text@, ',')[3]);
                assert(fields@[2]@ == split_on(text@, ',')[2]);
            }
            let size = match parse_number(&fields[3]) {
                Some(size) => size,
                None => {
                    return;
                },
            };
            let (available, vec_index) = fs.storage_available(size);
            proof {
                lemma_first_match(fs.fs@, holds(size));
            }
            if available {
                proof {
                    let k = first_match(fs.fs@, holds(size))->0;
                    assert(0 <= k < fs.fs.len());
                }
                let name = chars_to_string(&fields[2]);
                let ghost witness = name;
                fs.create_file(self.pid as i32, name, size, vec_index);
                proof {
                    assert(witness@ == split_on(text@, ',')[2]);
                    assert(fs.fs@ == create_result(
                        old(fs).fs@,
                        self.pid as i32,
                        witness,
                        size,
                        vec_index as int,
                    ));
                }
            }
        } else {
            proof {
                assert(split_on(text@, ',')[1] != seq!['0']) by {
                    if split_on(text@, ',')[1] == seq!['0'] {
                        assert(fields@[1]@.len() == 1);
                        assert(fields@[1]@[0] == '0');
                    }
                }
                assert(fields@[2]@ == split_on(text@, ',')[2]);
            }
            let name = chars_to_string(&fields[2]);
            fs.delete_file(self.pid as i32, #[verifier::truncate] (self.priority as i32), name);
        }
    }

    /// Marks the process as running, as it starts its quantum.
    pub fn begin_execution(&mut self)
        ensures
            final(self).state == State::Running,
            final(self).instructions@ == old(self).instructions@,
            final(self).pid == old(self).pid,
            final(self).offset == old(self).offset,
            final(self).init_time == old(self).init_time,
            final(self).priority == old(self).priority,
            final(self).time == old(self).time,
            final(self).blocks == old(self).blocks,
            final(self).printer == old(self).printer,
            final(self).scanner == old(self).scanner,
            final(self).modem == old(self).modem,
            final(self).drive == old(self).drive,
    {
        self.state = State::Running;
    }

    /// One turn of a running process, given how many instructions it has run
    /// in this quantum and whether it was preempted: it yields when preempted or
    /// when its quantum is used up, ends when it has no instruction left, and
    /// otherwise runs its next instruction and drops it.
    pub fn execute_step(&mut self, fs: &mut FileSystem, p_counter: u32, preempted: bool) -> (r:
        ExecStep)
        ensures
            final(self).pid == old(self).pid,
            final(self).offset == old(self).offset,
            final(self).init_time == old(self).init_time,
            final(self).priority == old(self).priority,
            final(self).time == old(self).time,
            final(self).blocks == old(self).blocks,
            final(self).printer == old(self).printer,
            final(self).scanner == old(self).scanner,
            final(self).modem == old(self).modem,
            final(self).drive == old(self).drive,
            final(fs).blocks@ == old(fs).blocks@,
            r == step_outcome(*old(self), old(fs).fs@, p_counter, preempted),
            r is Ran ==> {
                &&& instruction_done(
                    *old(self),
                    old(fs).fs@,
                    strip_white_space(old(self).instructions@[0]@),
                    final(fs).fs@,
                )
                &&& final(self).instructions@ == old(self).instructions@.drop_first()
                &&& final(self).state == old(self).state
            },
            !(r is Ran) ==> final(fs).fs@ == old(fs).fs@ && final(self).instructions@ == old(
                self,
            ).instructions@,
            r is Preempted ==> final(self).state == State::Waiting,
            r is Finished ==> final(self).state == State::Terminated,
            r is Malformed ==> final(self).state == old(self).state,
    {
        if preempted || p_counter >= self.time {
            self.state = State::Waiting;
            return ExecStep::Preempted;
        }
        if self.instructions.len() == 0 {
            self.state = State::Terminated;
            return ExecStep::Finished;
        }
        let ran = self.try_do_instruction(fs, &self.instructions[0]);
        if ran {
            self.remove_instruction();
            ExecStep::Ran
        } else {
            ExecStep::Malformed
        }
    }
}

/// What one turn of a running process comes to.
pub enum ExecStep {
    /// It was preempted or used up its quantum, and now waits.
    Preempted,
    /// It has no instruction left, and has terminated.
    Finished,
    /// It ran its next instruction.
    Ran,
    /// Its next instruction is not well formed or cannot be carried out.
    Malformed,
}

/// The outcome of `execute_step`.
pub open spec fn step_outcome(p: Processo, fs: Seq<File>, p_counter: u32, preempted: bool) -> ExecStep {
    if preempted || p_counter >= p.time {
        ExecStep::Preempted
    } else if p.instructions@.len() == 0 {
        ExecStep::Finished
    } else if instruction_valid(p, fs, strip_white_space(p.instructions@[0]@)) {
        ExecStep::Ran
    } else {
        ExecStep::Malformed
    }
}

/// The operation written in `text` (white space removed) by process `p` is well
/// formed, and the disk `fs` can carry it out without overflow: at least two
/// fields; for a creation (second field `0`) a fourth field that writes an
/// `i32`; for a deletion a third field.
pub open spec fn instruction_valid(p: Processo, fs: Seq<File>, text: Seq<char>) -> bool {
    let f = split_on(text, ',');
    &&& f.len() >= 2
    &&& if f[1] == seq!['0'] {
        &&& f.len() >= 4
        &&& parse_i32(f[3]) is Some
        &&& match first_match(fs, holds(parse_i32(f[3])->0)) {
            Some(v) => create_fits(fs, parse_i32(f[3])->0, v),
            None => true,
        }
    } else {
        &&& f.len() >= 3
        &&& delete_fits(fs, p.pid as i32, p.priority as i32, f[2])
    }
}

/// The spans `after` are those of `before` once process `p` has run the
/// operation written in `text`: a file named by the third field, of the size
/// that the fourth writes, placed in the first free span that holds it, if any,
/// when the second field is `0`; the deletion of the first file named by the
/// third field otherwise.
pub open spec fn instruction_done(p: Processo, before: Seq<File>, text: Seq<char>, after: Seq<File>) -> bool {
    let f = split_on(text, ',');
    if f[1] == seq!['0'] {
        let size = parse_i32(f[3])->0;
        match first_match(before, holds(size)) {
            Some(v) => exists|name: String|
                name@ == f[2] && after == #[trigger] create_result(
                    before,
                    p.pid as i32,
                    name,
                    size,
                    v,
                ),
            None => after == before,
        }
    } else {
        after == delete_result(before, p.pid as i32, p.priority as i32, f[2])
    }
}

} // verus!
