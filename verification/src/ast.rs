//! The abstract syntax tree of one command line, and its mathematical model.

use vstd::prelude::*;
use crate::word::{Word, WordPartV};

verus! {

/// How a redirection rebinds a descriptor.
#[derive(Debug, Clone, Copy, PartialEq, Eq, Structural)]
pub enum RedirectMode {
    /// `>`: create or truncate.
    Overwrite,
    /// `>>`: create or append.
    Append,
    /// `<`: open for reading.
    Input,
    /// `<<`: feed synthesized content.
    HereDoc,
    /// `<<<`: feed a single line of content.
    HereString,
    /// `>&`: duplicate onto an output descriptor.
    DupOutput,
    /// `<&`: duplicate onto an input descriptor.
    DupInput,
}

/// Where a redirection points.
#[derive(Debug)]
pub enum RedirectTarget {
    /// A file path, expanded at execution time.
    File(Word),
    /// An already-open descriptor to duplicate.
    Descriptor(i32),
    /// Raw content materialized into a temporary file.
    HereDoc(String),
    /// A single line of content materialized into a temporary file.
    HereString(String),
}

/// One node of the syntax tree.  Every composite node exclusively owns its
/// children: the tree is produced once per input line and consumed by the
/// executor.
#[derive(Debug)]
pub enum ASTNode {
    /// A simple command: its name and its arguments, still unexpanded.
    Command { name: Word, args: Vec<Word> },
    /// `left | right`: left's standard output feeds right's standard input.
    Pipe { left: Box<ASTNode>, right: Box<ASTNode> },
    /// A command run with one descriptor rebound.
    Redirect { command: Box<ASTNode>, fd: i32, target: RedirectTarget, mode: RedirectMode },
    /// A command launched without waiting for it.
    Background { command: Box<ASTNode> },
    /// `left && right`: right runs only if left succeeded.
    LogicalAnd { left: Box<ASTNode>, right: Box<ASTNode> },
    /// `left || right`: right runs only if left failed.
    LogicalOr { left: Box<ASTNode>, right: Box<ASTNode> },
    /// A command run in a forked child, isolating its state changes.
    Subshell { command: Box<ASTNode> },
    /// `left ; right`: both run, the sequence's status is right's.
    Semicolon { left: Box<ASTNode>, right: Box<ASTNode> },
    /// `var=value`: an environment assignment.
    Assignment { var: String, val: Word },
}

/// The model of a redirection target, over plain sequences.
pub enum RedirectTargetV {
    File(Seq<WordPartV>),
    Descriptor(int),
    HereDoc(Seq<char>),
    HereString(Seq<char>),
}

/// The model of a syntax-tree node, over plain sequences.
pub enum AstV {
    Command { name: Seq<WordPartV>, args: Seq<Seq<WordPartV>> },
    Pipe { left: Box<AstV>, right: Box<AstV> },
    Redirect { command: Box<AstV>, fd: int, target: RedirectTargetV, mode: RedirectMode },
    Background { command: Box<AstV> },
    LogicalAnd { left: Box<AstV>, right: Box<AstV> },
    LogicalOr { left: Box<AstV>, right: Box<AstV> },
    Subshell { command: Box<AstV> },
    Semicolon { left: Box<AstV>, right: Box<AstV> },
    Assignment { var: Seq<char>, val: Seq<WordPartV> },
}

impl View for RedirectTarget {
    type V = RedirectTargetV;

    open spec fn view(&self) -> RedirectTargetV {
        match self {
            RedirectTarget::File(w) => RedirectTargetV::File(w@),
            RedirectTarget::Descriptor(n) => RedirectTargetV::Descriptor(*n as int),
            RedirectTarget::HereDoc(s) => RedirectTargetV::HereDoc(s@),
            RedirectTarget::HereString(s) => RedirectTargetV::HereString(s@),
        }
    }
}

/// The model of a node: the same tree over views.
pub open spec fn ast_view(n: ASTNode) -> AstV
    decreases n,
{
    match n {
        ASTNode::Command { name, args } => AstV::Command {
            name: name@,
            args: args@.map_values(|w: Word| w@),
        },
        ASTNode::Pipe { left, right } => AstV::Pipe {
            left: Box::new(ast_view(*left)),
            right: Box::new(ast_view(*right)),
        },
        ASTNode::Redirect { command, fd, target, mode } => AstV::Redirect {
            command: Box::new(ast_view(*command)),
            fd: fd as int,
            target: target@,
            mode,
        },
        ASTNode::Background { command } => AstV::Background {
            command: Box::new(ast_view(*command)),
        },
        ASTNode::LogicalAnd { left, right } => AstV::LogicalAnd {
            left: Box::new(ast_view(*left)),
            right: Box::new(ast_view(*right)),
        },
        ASTNode::LogicalOr { left, right } => AstV::LogicalOr {
            left: Box::new(ast_view(*left)),
            right: Box::new(ast_view(*right)),
        },
        ASTNode::Subshell { command } => AstV::Subshell {
            command: Box::new(ast_view(*command)),
        },
        ASTNode::Semicolon { left, right } => AstV::Semicolon {
            left: Box::new(ast_view(*left)),
            right: Box::new(ast_view(*right)),
        },
        ASTNode::Assignment { var, val } => AstV::Assignment { var: var@, val: val@ },
    }
}

impl View for ASTNode {
    type V = AstV;

    open spec fn view(&self) -> AstV {
        ast_view(*self)
    }
}

} // verus!
