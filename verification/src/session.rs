//! The execution engine, as a state machine.  Walking the syntax tree,
//! deciding what runs next and how exit statuses combine is verified here;
//! the actual forking, descriptor wiring and waiting is outside work that a
//! driver performs, handing each outcome back as an [`Event`].
//!
//! A driver loop looks like: feed [`Event::Nothing`] to [`Session::step`],
//! perform the returned [`Action`], feed its outcome back as the next event,
//! and stop at [`Action::Done`] or [`Action::Failed`].

use vstd::prelude::*;
use crate::ast::{ASTNode, AstV, RedirectMode, RedirectTarget, RedirectTargetV};
use crate::executor::{
    env_view, expand_parts_spec, word_subst_commands, EnvV, Executor, ExpandErrV,
    substitution_commands,
};
use crate::types::ShellError;
use crate::utils::{is_builtin, is_builtin_spec};
use crate::word::{Word, WordPartV};

verus! {

/// One suspended continuation of the tree walk.
#[derive(Debug)]
pub enum Frame {
    /// Evaluate this node next.
    Eval(ASTNode),
    /// Waiting for the captured substitution outputs this node needs.
    Expand(ASTNode),
    /// After the left side of `&&`: run this on success.
    AndRight(ASTNode),
    /// After the left side of `||`: run this on failure.
    OrRight(ASTNode),
    /// After the left side of `;`: run this unconditionally.
    SemiRight(ASTNode),
    /// Waiting for the fork of a pipeline's left side; holds the right side.
    PipeRight(ASTNode),
    /// The pipeline's right side is evaluating above this frame; the left
    /// child must still be waited for.
    PipeAwait,
    /// Waiting for the left child after the right side finished with this
    /// result.  The wait's outcome never changes the result.
    PipeDone(Result<i32, ShellError>),
    /// An external command is running; holds its name for a not-found report.
    CommandWait(String),
    /// A builtin is running.
    BuiltinWait,
    /// A subshell child is running.
    SubshellWait,
    /// A redirected child is running.
    RedirectWait,
    /// A background child was forked.
    BackgroundWait,
}

/// What the driver must do next.
#[derive(Debug)]
pub enum Action {
    /// Internal work remains: feed [`Event::Nothing`] again.
    Continue,
    /// Run this builtin with these expanded arguments and report back.
    RunBuiltin { name: String, args: Vec<String> },
    /// Resolve and spawn this external command, wait, and report its status;
    /// report [`Event::NotFound`] if resolution fails.
    RunExternal { name: String, args: Vec<String> },
    /// Run each command text in a forked child against a copy of the state,
    /// capture its output, and hand the raw captures back in order.
    RunSubstitutions { commands: Vec<String> },
    /// Create a pipe, fork a child that runs `node` with its output feeding
    /// the pipe, and report that the fork happened.
    ForkPipeLeft { node: ASTNode },
    /// Fork a child that runs `node` detached; report that the fork happened.
    ForkBackground { node: ASTNode },
    /// Fork a child that runs `node`, wait for it, and report how it ended.
    ForkSubshell { node: ASTNode },
    /// Open `path` under `mode`, fork a child that runs `node` with the file
    /// bound to descriptor `fd`, wait, and report how it ended.
    RedirectFile { node: ASTNode, fd: i32, path: String, mode: RedirectMode },
    /// Materialize `content` into a temporary file, fork a child that runs
    /// `node` with it bound to descriptor `fd`, wait, and report.
    RedirectHere { node: ASTNode, fd: i32, content: String },
    /// Fork a child that runs `node` with `target_fd` duplicated onto `fd`,
    /// wait, and report how it ended.
    RedirectDupFd { node: ASTNode, fd: i32, target_fd: i32 },
    /// Wait for the pipeline's left child and report how it ended.
    WaitLeft,
    /// The statement finished with this status.
    Done { status: i32 },
    /// The statement failed with this error.
    Failed { error: ShellError },
    /// The evaluation stack is malformed; never issued in a properly driven
    /// session.
    StackError,
}

/// What the outside work reported.
#[derive(Debug)]
pub enum Event {
    /// Nothing to report; requested by [`Action::Continue`].
    Nothing,
    /// An external command finished with this status code.
    Status(i32),
    /// The command name resolved to nothing.
    NotFound,
    /// A builtin finished; carries its success and the state it may have
    /// changed.
    BuiltinDone { ok: bool, environment: Vec<(String, String)>, current_dir: String },
    /// The captured outputs of the requested substitutions, in order.
    Substitutions(Vec<String>),
    /// A requested substitution's captured output was not valid text.
    SubstitutionFailed,
    /// A requested fork happened.
    Spawned,
    /// A waited-for child exited with this code.
    ChildExited(i32),
    /// A waited-for child was killed by this signal.
    ChildSignaled(i32),
    /// A waited-for child was continued.
    ChildContinued,
    /// A waited-for child ended some other way.
    ChildOther,
    /// A system call failed: errno and context.
    OsError { errno: i32, context: String },
    /// An input/output operation failed: its message.
    IoFailed { message: String },
}

/// The status recorded for a finished statement.
pub open spec fn status_of(res: Result<i32, ShellError>) -> i32 {
    match res {
        Ok(s) => s,
        Err(e) => e.spec_status(),
    }
}

/// How a completed result unwinds the continuation stack.
///
/// `&&` runs its right side only on status zero and `||` only on a nonzero
/// status; an error short-circuits both.  `;` always runs its right side.  A
/// pipeline whose right side finished waits for its left child, keeping the
/// right side's result.  An empty stack finishes the statement.
pub open spec fn resolve_spec(frames: Seq<Frame>, res: Result<i32, ShellError>) -> (
    Seq<Frame>,
    Action,
)
    decreases frames.len(),
{
    if frames.len() == 0 {
        (
            frames,
            match res {
                Ok(s) => Action::Done { status: s },
                Err(e) => Action::Failed { error: e },
            },
        )
    } else {
        let rest = frames.drop_last();
        match frames.last() {
            Frame::AndRight(r) => match res {
                Ok(s) => if s == 0 {
                    (rest.push(Frame::Eval(r)), Action::Continue)
                } else {
                    resolve_spec(rest, res)
                },
                Err(_) => resolve_spec(rest, res),
            },
            Frame::OrRight(r) => match res {
                Ok(s) => if s != 0 {
                    (rest.push(Frame::Eval(r)), Action::Continue)
                } else {
                    resolve_spec(rest, res)
                },
                Err(_) => resolve_spec(rest, res),
            },
            Frame::SemiRight(r) => (rest.push(Frame::Eval(r)), Action::Continue),
            Frame::PipeAwait => (rest.push(Frame::PipeDone(res)), Action::WaitLeft),
            _ => (rest, Action::StackError),
        }
    }
}

/// Law: a pipeline's status is its rightmost command's.  Once the right side
/// finished with `res`, waiting for the left child hands back exactly `res`,
/// whatever the wait reported: the frame the wait leaves behind carries `res`
/// unchanged.
pub proof fn lemma_pipe_status_is_rightmost(frames: Seq<Frame>, res: Result<i32, ShellError>)
    ensures
        resolve_spec(frames.push(Frame::PipeAwait), res) == (
            frames.push(Frame::PipeDone(res)),
            Action::WaitLeft,
        ),
{
    assert(frames.push(Frame::PipeAwait).drop_last() =~= frames);
}

/// Law: `&&` short-circuits.  When its left side finished with a nonzero
/// status or an error, the pending right side is discarded unevaluated — the
/// stack unwinds exactly as if the frame holding it had never been there.
pub proof fn lemma_and_short_circuit(frames: Seq<Frame>, r: ASTNode, res: Result<i32, ShellError>)
    requires
        !(res matches Ok(s) && s == 0),
    ensures
        resolve_spec(frames.push(Frame::AndRight(r)), res) == resolve_spec(frames, res),
{
    assert(frames.push(Frame::AndRight(r)).drop_last() =~= frames);
}

/// Law: `&&` runs its right side on success: a zero status schedules exactly
/// the pending right side and nothing else.
pub proof fn lemma_and_runs_right_on_success(frames: Seq<Frame>, r: ASTNode)
    ensures
        resolve_spec(frames.push(Frame::AndRight(r)), Ok(0)) == (
            frames.push(Frame::Eval(r)),
            Action::Continue,
        ),
{
    assert(frames.push(Frame::AndRight(r)).drop_last() =~= frames);
}

/// Law: `||` short-circuits.  When its left side succeeded, the pending right
/// side is discarded unevaluated; an error also bypasses it.
pub proof fn lemma_or_short_circuit(frames: Seq<Frame>, r: ASTNode, res: Result<i32, ShellError>)
    requires
        !(res matches Ok(s) && s != 0),
    ensures
        resolve_spec(frames.push(Frame::OrRight(r)), res) == resolve_spec(frames, res),
{
    assert(frames.push(Frame::OrRight(r)).drop_last() =~= frames);
}

/// Law: `||` runs its right side on failure: a nonzero status schedules
/// exactly the pending right side.
pub proof fn lemma_or_runs_right_on_failure(frames: Seq<Frame>, r: ASTNode, s: i32)
    requires
        s != 0,
    ensures
        resolve_spec(frames.push(Frame::OrRight(r)), Ok(s)) == (
            frames.push(Frame::Eval(r)),
            Action::Continue,
        ),
{
    assert(frames.push(Frame::OrRight(r)).drop_last() =~= frames);
}

/// The substitution commands of a word list, in order.
pub open spec fn words_subst(ws: Seq<Seq<WordPartV>>) -> Seq<Seq<char>>
    decreases ws.len(),
{
    if ws.len() == 0 {
        Seq::empty()
    } else {
        word_subst_commands(ws[0]) + words_subst(ws.drop_first())
    }
}

/// The substitution commands a node needs captured before it can be
/// dispatched: those of a command's name and arguments, of an assignment's
/// value, or of a file redirection's target.
pub open spec fn node_subst(nv: AstV) -> Seq<Seq<char>> {
    match nv {
        AstV::Command { name, args } => word_subst_commands(name) + words_subst(args),
        AstV::Assignment { var, val } => word_subst_commands(val),
        AstV::Redirect { command, fd, target, mode } => match target {
            RedirectTargetV::File(w) => word_subst_commands(w),
            _ => Seq::empty(),
        },
        _ => Seq::empty(),
    }
}

/// The expansion of a word list, each word consuming its own substitution
/// outputs from the shared list, in order.
pub open spec fn expand_words_spec(
    ws: Seq<Seq<WordPartV>>,
    env: EnvV,
    status: i32,
    pid: i32,
    outs: Seq<Seq<char>>,
) -> Result<Seq<Seq<char>>, ExpandErrV>
    decreases ws.len(),
{
    if ws.len() == 0 {
        Ok(Seq::empty())
    } else {
        let k = word_subst_commands(ws[0]).len() as int;
        if outs.len() < k {
            Err(ExpandErrV::Short)
        } else {
            match expand_parts_spec(ws[0], env, status, pid, outs.take(k)) {
                Err(e) => Err(e),
                Ok(s) => match expand_words_spec(ws.drop_first(), env, status, pid, outs.skip(k)) {
                    Err(e) => Err(e),
                    Ok(rest) => Ok(seq![s] + rest),
                },
            }
        }
    }
}

/// Appending a word appends its substitution commands.
proof fn lemma_words_subst_snoc(ws: Seq<Seq<WordPartV>>, w: Seq<WordPartV>)
    ensures
        words_subst(ws.push(w)) == words_subst(ws) + word_subst_commands(w),
    decreases ws.len(),
{
    if ws.len() == 0 {
        assert(ws.push(w)[0] == w);
        assert(ws.push(w).drop_first() =~= Seq::<Seq<WordPartV>>::empty());
        assert(words_subst(ws.push(w).drop_first()) == Seq::<Seq<char>>::empty());
        assert(word_subst_commands(w) + Seq::<Seq<char>>::empty() =~= word_subst_commands(w));
        assert(words_subst(ws) + word_subst_commands(w) =~= word_subst_commands(w));
    } else {
        assert(ws.push(w)[0] == ws[0]);
        assert(ws.push(w).drop_first() =~= ws.drop_first().push(w));
        lemma_words_subst_snoc(ws.drop_first(), w);
        assert(word_subst_commands(ws[0]) + (words_subst(ws.drop_first()) + word_subst_commands(
            w,
        )) =~= (word_subst_commands(ws[0]) + words_subst(ws.drop_first())) + word_subst_commands(
            w,
        ));
    }
}

/// The substitution commands a node needs, as owned strings.
fn node_substitutions(node: &ASTNode) -> (r: Vec<String>)
    ensures
        r@.map_values(|s: String| s@) == node_subst(node@),
{
    match node {
        ASTNode::Command { name, args } => {
            let mut out = substitution_commands(name);
            let ghost base = word_subst_commands(name@);
            let mut i: usize = 0;
            proof {
                assert(args@.map_values(|w: Word| w@).take(0) =~= Seq::<Seq<WordPartV>>::empty());
                assert(out@.map_values(|s: String| s@) + Seq::<Seq<char>>::empty() =~= out@.map_values(
                    |s: String| s@,
                ));
            }
            while i < args.len()
                invariant
                    i <= args@.len(),
                    out@.map_values(|s: String| s@) == word_subst_commands(name@) + words_subst(
                        args@.map_values(|w: Word| w@).take(i as int),
                    ),
                decreases args@.len() - i,
            {
                let ghost ws = args@.map_values(|w: Word| w@);
                let ghost outs0 = out@.map_values(|s: String| s@);
                let mut more = substitution_commands(&args[i]);
                let ghost mores = more@.map_values(|s: String| s@);
                out.append(&mut more);
                proof {
                    assert(out@.map_values(|s: String| s@) =~= outs0 + mores);
                    lemma_words_subst_snoc(ws.take(i as int), ws[i as int]);
                    assert(ws.take(i + 1 as int) =~= ws.take(i as int).push(ws[i as int]));
                    assert(word_subst_commands(name@) + (words_subst(ws.take(i as int))
                        + word_subst_commands(ws[i as int])) =~= (word_subst_commands(name@)
                        + words_subst(ws.take(i as int))) + word_subst_commands(ws[i as int]));
                }
                i += 1;
            }
            proof {
                let ws = args@.map_values(|w: Word| w@);
                assert(ws.take(ws.len() as int) =~= ws);
            }
            out
        },
        ASTNode::Assignment { var, val } => substitution_commands(val),
        ASTNode::Redirect { command, fd, target, mode } => match target {
            RedirectTarget::File(w) => substitution_commands(w),
            _ => {
                let empty: Vec<String> = Vec::new();
                proof {
                    assert(empty@.map_values(|s: String| s@) =~= Seq::<Seq<char>>::empty());
                }
                empty
            },
        },
        _ => {
            let empty: Vec<String> = Vec::new();
            proof {
                assert(empty@.map_values(|s: String| s@) =~= Seq::<Seq<char>>::empty());
            }
            empty
        },
    }
}

/// Expands each word of `words` from index `wi` on, consuming captured
/// outputs from index `oi` on.
fn expand_words(
    state: &Executor,
    words: &Vec<Word>,
    wi: usize,
    outs: &Vec<String>,
    oi: usize,
) -> (r: Result<Vec<String>, ShellError>)
    requires
        wi <= words@.len(),
        oi <= outs@.len(),
    ensures
        ({
            let sp = expand_words_spec(
                words@.map_values(|w: Word| w@).skip(wi as int),
                env_view(state.environment@),
                state.last_status,
                state.pid,
                outs@.map_values(|s: String| s@).skip(oi as int),
            );
            match r {
                Ok(v) => sp matches Ok(x) && v@.map_values(|s: String| s@) == x,
                Err(ShellError::ParseError(m)) => sp matches Err(ExpandErrV::Parse(mm)) && m@
                    == mm,
                Err(ShellError::InvalidSyntax(m)) => sp matches Err(ExpandErrV::Syntax(mm)) && m@
                    == mm,
                Err(ShellError::InternalError(_)) => sp matches Err(ExpandErrV::Short),
                Err(_) => false,
            }
        }),
    decreases words@.len() - wi,
{
    let ghost ws = words@.map_values(|w: Word| w@).skip(wi as int);
    let ghost ov = outs@.map_values(|s: String| s@).skip(oi as int);
    if wi >= words.len() {
        proof {
            assert(ws =~= Seq::<Seq<WordPartV>>::empty());
        }
        let empty: Vec<String> = Vec::new();
        proof {
            assert(empty@.map_values(|s: String| s@) =~= Seq::<Seq<char>>::empty());
        }
        return Ok(empty);
    }
    proof {
        assert(ws[0] == words@.map_values(|w: Word| w@)[wi as int]);
        assert(ws.drop_first() =~= words@.map_values(|w: Word| w@).skip(wi + 1 as int));
    }
    let cmds = substitution_commands(&words[wi]);
    let k = cmds.len();
    proof {
        assert(cmds@.map_values(|s: String| s@).len() == word_subst_commands(ws[0]).len());
    }
    if outs.len() - oi < k {
        return Err(
            ShellError::InternalError(
                String::from_str("missing captured output for a command substitution"),
            ),
        );
    }
    let total = outs.len();
    let mut slice: Vec<String> = Vec::new();
    let mut j: usize = 0;
    while j < k
        invariant
            j <= k,
            total == outs@.len(),
            oi + k <= total,
            slice@.map_values(|s: String| s@) == outs@.map_values(|s: String| s@).skip(
                oi as int,
            ).take(k as int).take(j as int),
        decreases k - j,
    {
        let ghost sv = slice@.map_values(|s: String| s@);
        slice.push(outs[oi + j].clone());
        proof {
            let full = outs@.map_values(|s: String| s@).skip(oi as int).take(k as int);
            assert(slice@.map_values(|s: String| s@) =~= sv.push(outs@[oi + j as int]@));
            assert(full.take(j + 1 as int) =~= full.take(j as int).push(full[j as int]));
            assert(full[j as int] == outs@[oi + j as int]@);
        }
        j += 1;
    }
    proof {
        let full = outs@.map_values(|s: String| s@).skip(oi as int).take(k as int);
        assert(full.take(k as int) =~= full);
        assert(ov.take(k as int) =~= full);
    }
    match state.expand_word_to_string(&words[wi], &slice) {
        Err(e) => Err(e),
        Ok(s) => {
            proof {
                assert(outs@.map_values(|q: String| q@).skip(oi + k as int) =~= ov.skip(k as int));
            }
            match expand_words(state, words, wi + 1, outs, oi + k) {
                Err(e) => Err(e),
                Ok(mut rest) => {
                    let ghost rv = rest@.map_values(|q: String| q@);
                    rest.insert(0, s);
                    proof {
                        assert(rest@.map_values(|q: String| q@) =~= seq![s@] + rv);
                    }
                    Ok(rest)
                },
            }
        },
    }
}

/// An expansion failure paired with the shell error that reports it.
pub open spec fn err_matches(e: ShellError, ev: ExpandErrV) -> bool {
    match ev {
        ExpandErrV::Parse(m) => e matches ShellError::ParseError(mm) && mm@ == m,
        ExpandErrV::Syntax(m) => e matches ShellError::InvalidSyntax(mm) && mm@ == m,
        ExpandErrV::Short => e matches ShellError::InternalError(_),
    }
}

/// The exit status standing for a child killed by signal `sig`: the
/// conventional `128 + sig` for a real signal number, 1 otherwise.
pub open spec fn sig_code_spec(sig: i32) -> i32 {
    if 0 < sig < 128 {
        (128 + sig) as i32
    } else {
        1
    }
}

/// A step that unwound the stack with result `res` and touched nothing else.
pub open spec fn resolved(
    rest: Seq<Frame>,
    pre: Executor,
    res: Result<i32, ShellError>,
    post_frames: Seq<Frame>,
    post: Executor,
    action: Action,
) -> bool {
    (post_frames, action) == resolve_spec(rest, res) && post.last_status == status_of(res)
        && post.environment == pre.environment && post.current_dir == pre.current_dir
        && post.aliases == pre.aliases && post.pid == pre.pid
}

/// A step that expanded words and then unwound with the matching error.
pub open spec fn resolved_err(
    rest: Seq<Frame>,
    pre: Executor,
    ev: ExpandErrV,
    post_frames: Seq<Frame>,
    post: Executor,
    action: Action,
) -> bool {
    exists|e: ShellError|
        #[trigger] err_matches(e, ev) && resolved(rest, pre, Err(e), post_frames, post, action)
}

/// A step that found the stack malformed: it drops the offending frame and
/// reports [`Action::StackError`].
pub open spec fn stack_error(
    rest: Seq<Frame>,
    pre: Executor,
    post_frames: Seq<Frame>,
    post: Executor,
    action: Action,
) -> bool {
    post_frames == rest && post == pre && action == Action::StackError
}

/// What dispatching an expanded node does, given the captured substitution
/// outputs `outs`.
///
/// A command expands its name and arguments and then runs as a builtin or as
/// an external command; an assignment expands its value and binds it with
/// status zero; a redirection resolves its target and hands the child off to
/// the driver.  An expansion failure unwinds with the matching error.
pub open spec fn dispatch_post(
    node: ASTNode,
    outs: Seq<Seq<char>>,
    rest: Seq<Frame>,
    pre: Executor,
    post_frames: Seq<Frame>,
    post: Executor,
    action: Action,
) -> bool {
    let env = env_view(pre.environment@);
    match node {
        ASTNode::Command { name, args } => {
            let ws = seq![name@] + args@.map_values(|w: Word| w@);
            match expand_words_spec(ws, env, pre.last_status, pre.pid, outs) {
                Err(ev) => resolved_err(rest, pre, ev, post_frames, post, action),
                Ok(strs) => {
                    if is_builtin_spec(strs[0]) {
                        post_frames == rest.push(Frame::BuiltinWait) && post == pre && (
                        action matches Action::RunBuiltin { name: n, args: a } && n@ == strs[0]
                            && a@.map_values(|s: String| s@) == strs.drop_first())
                    } else {
                        post_frames.len() == rest.len() + 1 && post_frames.drop_last() == rest && (
                        post_frames.last() matches Frame::CommandWait(n) && n@ == strs[0]) && post
                            == pre && (action matches Action::RunExternal { name: n, args: a } && n@
                            == strs[0] && a@.map_values(|s: String| s@) == strs.drop_first())
                    }
                },
            }
        },
        ASTNode::Assignment { var, val } => {
            match expand_parts_spec(val@, env, pre.last_status, pre.pid, outs) {
                Err(ev) => resolved_err(rest, pre, ev, post_frames, post, action),
                Ok(v) => (post_frames, action) == resolve_spec(rest, Ok(0)) && post.last_status
                    == 0 && env_view(post.environment@) == crate::executor::env_set_spec(
                    env,
                    var@,
                    v,
                ) && post.current_dir == pre.current_dir && post.aliases == pre.aliases
                    && post.pid == pre.pid,
            }
        },
        ASTNode::Redirect { command, fd, target, mode } => {
            match target {
                RedirectTarget::File(w) => {
                    match expand_parts_spec(w@, env, pre.last_status, pre.pid, outs) {
                        Err(ev) => resolved_err(rest, pre, ev, post_frames, post, action),
                        Ok(p) => post_frames == rest.push(Frame::RedirectWait) && post == pre && (
                        action matches Action::RedirectFile { node: n, fd: f, path, mode: m } && n
                            == *command && f == fd && path@ == p && m == mode),
                    }
                },
                RedirectTarget::Descriptor(n) => post_frames == rest.push(Frame::RedirectWait)
                    && post == pre && action == (Action::RedirectDupFd {
                    node: *command,
                    fd,
                    target_fd: n,
                }),
                RedirectTarget::HereDoc(c) => post_frames == rest.push(Frame::RedirectWait) && post
                    == pre && (action matches Action::RedirectHere { node: n, fd: f, content } && n
                    == *command && f == fd && content@ == c@),
                RedirectTarget::HereString(c) => post_frames == rest.push(Frame::RedirectWait)
                    && post == pre && (action matches Action::RedirectHere {
                    node: n,
                    fd: f,
                    content,
                } && n == *command && f == fd && content@ == c@ + "\n"@),
            }
        },
        _ => stack_error(rest, pre, post_frames, post, action),
    }
}

/// What evaluating a node does.  Sequencing nodes push their continuation and
/// descend into their left side; forking nodes hand their child subtree to
/// the driver; nodes that expand words either request their substitutions or
/// dispatch directly.
pub open spec fn eval_post(
    node: ASTNode,
    rest: Seq<Frame>,
    pre: Executor,
    post_frames: Seq<Frame>,
    post: Executor,
    action: Action,
) -> bool {
    match node {
        ASTNode::LogicalAnd { left, right } => post_frames == rest.push(
            Frame::AndRight(*right),
        ).push(Frame::Eval(*left)) && post == pre && action == Action::Continue,
        ASTNode::LogicalOr { left, right } => post_frames == rest.push(
            Frame::OrRight(*right),
        ).push(Frame::Eval(*left)) && post == pre && action == Action::Continue,
        ASTNode::Semicolon { left, right } => post_frames == rest.push(
            Frame::SemiRight(*right),
        ).push(Frame::Eval(*left)) && post == pre && action == Action::Continue,
        ASTNode::Pipe { left, right } => post_frames == rest.push(Frame::PipeRight(*right)) && post
            == pre && action == (Action::ForkPipeLeft { node: *left }),
        ASTNode::Background { command } => post_frames == rest.push(Frame::BackgroundWait) && post
            == pre && action == (Action::ForkBackground { node: *command }),
        ASTNode::Subshell { command } => post_frames == rest.push(Frame::SubshellWait) && post
            == pre && action == (Action::ForkSubshell { node: *command }),
        _ => {
            if node_subst(node@).len() > 0 {
                post_frames == rest.push(Frame::Expand(node)) && post == pre && (
                action matches Action::RunSubstitutions { commands } && commands@.map_values(
                    |s: String| s@,
                ) == node_subst(node@))
            } else {
                dispatch_post(node, Seq::empty(), rest, pre, post_frames, post, action)
            }
        },
    }
}

/// What one step of the machine does, for every frame and event.
pub open spec fn step_post(
    pre_frames: Seq<Frame>,
    pre: Executor,
    event: Event,
    post_frames: Seq<Frame>,
    post: Executor,
    action: Action,
) -> bool {
    if pre_frames.len() == 0 {
        post_frames == pre_frames && post == pre && action == (Action::Done {
            status: pre.last_status,
        })
    } else {
        let rest = pre_frames.drop_last();
        match pre_frames.last() {
            Frame::Eval(node) => eval_post(node, rest, pre, post_frames, post, action),
            Frame::Expand(node) => match event {
                Event::Substitutions(outs) => dispatch_post(
                    node,
                    outs@.map_values(|s: String| s@),
                    rest,
                    pre,
                    post_frames,
                    post,
                    action,
                ),
                Event::SubstitutionFailed => resolved_err(
                    rest,
                    pre,
                    ExpandErrV::Short,
                    post_frames,
                    post,
                    action,
                ),
                _ => stack_error(rest, pre, post_frames, post, action),
            },
            Frame::CommandWait(nm) => match event {
                Event::Status(s) => resolved(rest, pre, Ok(s), post_frames, post, action),
                Event::NotFound => resolved(
                    rest,
                    pre,
                    Err(ShellError::CommandNotFound(nm)),
                    post_frames,
                    post,
                    action,
                ),
                Event::OsError { errno, context } => resolved(
                    rest,
                    pre,
                    Err(ShellError::NixError(errno, context)),
                    post_frames,
                    post,
                    action,
                ),
                Event::IoFailed { message } => resolved(
                    rest,
                    pre,
                    Err(ShellError::IoError(message)),
                    post_frames,
                    post,
                    action,
                ),
                _ => stack_error(rest, pre, post_frames, post, action),
            },
            Frame::BuiltinWait => match event {
                Event::BuiltinDone { ok, environment, current_dir } => (post_frames, action)
                    == resolve_spec(
                    rest,
                    Ok(
                        if ok {
                            0
                        } else {
                            1
                        },
                    ),
                ) && post.last_status == (if ok {
                    0i32
                } else {
                    1i32
                }) && post.environment == environment && post.current_dir == current_dir
                    && post.aliases == pre.aliases && post.pid == pre.pid,
                _ => stack_error(rest, pre, post_frames, post, action),
            },
            Frame::SubshellWait => match event {
                Event::ChildExited(c) => resolved(rest, pre, Ok(c), post_frames, post, action),
                Event::ChildSignaled(sig) => resolved(
                    rest,
                    pre,
                    Ok(sig_code_spec(sig)),
                    post_frames,
                    post,
                    action,
                ),
                Event::ChildContinued => resolved(rest, pre, Ok(0), post_frames, post, action),
                Event::ChildOther => resolved(rest, pre, Ok(1), post_frames, post, action),
                Event::OsError { errno, context } => resolved(
                    rest,
                    pre,
                    Err(ShellError::NixError(errno, context)),
                    post_frames,
                    post,
                    action,
                ),
                Event::IoFailed { message } => resolved(
                    rest,
                    pre,
                    Err(ShellError::IoError(message)),
                    post_frames,
                    post,
                    action,
                ),
                _ => stack_error(rest, pre, post_frames, post, action),
            },
            Frame::RedirectWait => match event {
                Event::ChildExited(c) => resolved(rest, pre, Ok(c), post_frames, post, action),
                Event::ChildSignaled(sig) => resolved(
                    rest,
                    pre,
                    Ok(sig_code_spec(sig)),
                    post_frames,
                    post,
                    action,
                ),
                Event::ChildContinued => resolved(rest, pre, Ok(1), post_frames, post, action),
                Event::ChildOther => resolved(rest, pre, Ok(1), post_frames, post, action),
                Event::OsError { errno, context } => resolved(
                    rest,
                    pre,
                    Err(ShellError::NixError(errno, context)),
                    post_frames,
                    post,
                    action,
                ),
                Event::IoFailed { message } => resolved(
                    rest,
                    pre,
                    Err(ShellError::IoError(message)),
                    post_frames,
                    post,
                    action,
                ),
                _ => stack_error(rest, pre, post_frames, post, action),
            },
            Frame::BackgroundWait => match event {
                Event::Spawned => resolved(rest, pre, Ok(0), post_frames, post, action),
                Event::OsError { errno, context } => resolved(
                    rest,
                    pre,
                    Err(ShellError::NixError(errno, context)),
                    post_frames,
                    post,
                    action,
                ),
                Event::IoFailed { message } => resolved(
                    rest,
                    pre,
                    Err(ShellError::IoError(message)),
                    post_frames,
                    post,
                    action,
                ),
                _ => stack_error(rest, pre, post_frames, post, action),
            },
            Frame::PipeRight(r) => match event {
                Event::Spawned => post_frames == rest.push(Frame::PipeAwait).push(Frame::Eval(r))
                    && post == pre && action == Action::Continue,
                Event::OsError { errno, context } => resolved(
                    rest,
                    pre,
                    Err(ShellError::NixError(errno, context)),
                    post_frames,
                    post,
                    action,
                ),
                Event::IoFailed { message } => resolved(
                    rest,
                    pre,
                    Err(ShellError::IoError(message)),
                    post_frames,
                    post,
                    action,
                ),
                _ => stack_error(rest, pre, post_frames, post, action),
            },
            Frame::PipeDone(res) => resolved(rest, pre, res, post_frames, post, action),
            _ => stack_error(rest, pre, post_frames, post, action),
        }
    }
}

/// An expansion result has one string per word.
proof fn lemma_expand_words_len(
    ws: Seq<Seq<WordPartV>>,
    env: EnvV,
    status: i32,
    pid: i32,
    outs: Seq<Seq<char>>,
)
    ensures
        expand_words_spec(ws, env, status, pid, outs) matches Ok(x) ==> x.len() == ws.len(),
    decreases ws.len(),
{
    if ws.len() > 0 {
        let k = word_subst_commands(ws[0]).len() as int;
        if outs.len() >= k {
            lemma_expand_words_len(ws.drop_first(), env, status, pid, outs.skip(k));
        }
    }
}

/// A statement being executed: the session state and the continuation stack.
pub struct Session {
    pub state: Executor,
    pub frames: Vec<Frame>,
}

impl Session {
    /// Begins executing one parsed statement against the given state.
    pub fn start(state: Executor, node: ASTNode) -> (r: Session)
        ensures
            r.frames@ =~= seq![Frame::Eval(node)],
            r.state == state,
    {
        let mut frames: Vec<Frame> = Vec::new();
        frames.push(Frame::Eval(node));
        Session { state, frames }
    }

    /// Unwinds the stack with a completed result, after recording its status.
    fn resolve(&mut self, res: Result<i32, ShellError>) -> (r: Action)
        ensures
            (final(self).frames@, r) == resolve_spec(old(self).frames@, res),
            final(self).state.last_status == status_of(res),
            final(self).state.environment == old(self).state.environment,
            final(self).state.current_dir == old(self).state.current_dir,
            final(self).state.aliases == old(self).state.aliases,
            final(self).state.pid == old(self).state.pid,
    {
        match &res {
            Ok(s) => {
                self.state.last_status = *s;
            },
            Err(e) => {
                self.state.last_status = e.status();
            },
        }
        loop
            invariant
                resolve_spec(old(self).frames@, res) == resolve_spec(self.frames@, res),
                self.state.last_status == status_of(res),
                self.state.environment == old(self).state.environment,
                self.state.current_dir == old(self).state.current_dir,
                self.state.aliases == old(self).state.aliases,
                self.state.pid == old(self).state.pid,
            decreases self.frames@.len(),
        {
            let ghost pre = self.frames@;
            match self.frames.pop() {
                None => {
                    proof {
                        assert(pre.len() == 0);
                    }
                    match res {
                        Ok(s) => {
                            return Action::Done { status: s };
                        },
                        Err(e) => {
                            return Action::Failed { error: e };
                        },
                    }
                },
                Some(frame) => {
                    proof {
                        assert(pre.last() == frame);
                        assert(pre.drop_last() =~= self.frames@);
                    }
                    match frame {
                        Frame::AndRight(r) => {
                            let run = match &res {
                                Ok(s) => *s == 0,
                                Err(_) => false,
                            };
                            if run {
                                self.frames.push(Frame::Eval(r));
                                return Action::Continue;
                            }
                        },
                        Frame::OrRight(r) => {
                            let run = match &res {
                                Ok(s) => *s != 0,
                                Err(_) => false,
                            };
                            if run {
                                self.frames.push(Frame::Eval(r));
                                return Action::Continue;
                            }
                        },
                        Frame::SemiRight(r) => {
                            self.frames.push(Frame::Eval(r));
                            return Action::Continue;
                        },
                        Frame::PipeAwait => {
                            self.frames.push(Frame::PipeDone(res));
                            return Action::WaitLeft;
                        },
                        _ => {
                            return Action::StackError;
                        },
                    }
                },
            }
        }
    }

    /// Performs one transition: consumes the top frame under the reported
    /// event, updates the state, and says what the driver must do next.
    pub fn step(&mut self, event: Event) -> (r: Action)
        ensures
            step_post(
                old(self).frames@,
                old(self).state,
                event,
                final(self).frames@,
                final(self).state,
                r,
            ),
    {
        let ghost pre = self.frames@;
        match self.frames.pop() {
            None => {
                proof {
                    assert(pre.len() == 0);
                }
                Action::Done { status: self.state.last_status }
            },
            Some(frame) => {
                proof {
                    assert(pre.last() == frame);
                    assert(pre.drop_last() =~= self.frames@);
                }
                match frame {
                    Frame::Eval(node) => self.eval_node(node),
                    Frame::Expand(node) => match event {
                        Event::Substitutions(outs) => self.dispatch(node, outs),
                        Event::SubstitutionFailed => {
                            let e = ShellError::InternalError(
                                String::from_str(
                                    "command substitution output is not valid text",
                                ),
                            );
                            let ghost ge = e;
                            let r = self.resolve(Err(e));
                            proof {
                                assert(err_matches(ge, ExpandErrV::Short));
                            }
                            r
                        },
                        _ => Action::StackError,
                    },
                    Frame::CommandWait(nm) => match event {
                        Event::Status(s) => self.resolve(Ok(s)),
                        Event::NotFound => self.resolve(Err(ShellError::CommandNotFound(nm))),
                        Event::OsError { errno, context } => self.resolve(
                            Err(ShellError::NixError(errno, context)),
                        ),
                        Event::IoFailed { message } => self.resolve(
                            Err(ShellError::IoError(message)),
                        ),
                        _ => Action::StackError,
                    },
                    Frame::BuiltinWait => match event {
                        Event::BuiltinDone { ok, environment, current_dir } => {
                            self.state.environment = environment;
                            self.state.current_dir = current_dir;
                            self.resolve(
                                Ok(
                                    if ok {
                                        0
                                    } else {
                                        1
                                    },
                                ),
                            )
                        },
                        _ => Action::StackError,
                    },
                    Frame::SubshellWait => match event {
                        Event::ChildExited(c) => self.resolve(Ok(c)),
                        Event::ChildSignaled(sig) => self.resolve(Ok(sig_code(sig))),
                        Event::ChildContinued => self.resolve(Ok(0)),
                        Event::ChildOther => self.resolve(Ok(1)),
                        Event::OsError { errno, context } => self.resolve(
                            Err(ShellError::NixError(errno, context)),
                        ),
                        Event::IoFailed { message } => self.resolve(
                            Err(ShellError::IoError(message)),
                        ),
                        _ => Action::StackError,
                    },
                    Frame::RedirectWait => match event {
                        Event::ChildExited(c) => self.resolve(Ok(c)),
                        Event::ChildSignaled(sig) => self.resolve(Ok(sig_code(sig))),
                        Event::ChildContinued => self.resolve(Ok(1)),
                        Event::ChildOther => self.resolve(Ok(1)),
                        Event::OsError { errno, context } => self.resolve(
                            Err(ShellError::NixError(errno, context)),
                        ),
                        Event::IoFailed { message } => self.resolve(
                            Err(ShellError::IoError(message)),
                        ),
                        _ => Action::StackError,
                    },
                    Frame::BackgroundWait => match event {
                        Event::Spawned => self.resolve(Ok(0)),
                        Event::OsError { errno, context } => self.resolve(
                            Err(ShellError::NixError(errno, context)),
                        ),
                        Event::IoFailed { message } => self.resolve(
                            Err(ShellError::IoError(message)),
                        ),
                        _ => Action::StackError,
                    },
                    Frame::PipeRight(r) => match event {
                        Event::Spawned => {
                            self.frames.push(Frame::PipeAwait);
                            self.frames.push(Frame::Eval(r));
                            Action::Continue
                        },
                        Event::OsError { errno, context } => self.resolve(
                            Err(ShellError::NixError(errno, context)),
                        ),
                        Event::IoFailed { message } => self.resolve(
                            Err(ShellError::IoError(message)),
                        ),
                        _ => Action::StackError,
                    },
                    Frame::PipeDone(res) => self.resolve(res),
                    _ => Action::StackError,
                }
            },
        }
    }

    /// Evaluates one node: pushes continuations, hands subtrees to the
    /// driver, or moves into expansion and dispatch.
    fn eval_node(&mut self, node: ASTNode) -> (r: Action)
        ensures
            eval_post(
                node,
                old(self).frames@,
                old(self).state,
                final(self).frames@,
                final(self).state,
                r,
            ),
    {
        match node {
            ASTNode::LogicalAnd { left, right } => {
                self.frames.push(Frame::AndRight(*right));
                self.frames.push(Frame::Eval(*left));
                Action::Continue
            },
            ASTNode::LogicalOr { left, right } => {
                self.frames.push(Frame::OrRight(*right));
                self.frames.push(Frame::Eval(*left));
                Action::Continue
            },
            ASTNode::Semicolon { left, right } => {
                self.frames.push(Frame::SemiRight(*right));
                self.frames.push(Frame::Eval(*left));
                Action::Continue
            },
            ASTNode::Pipe { left, right } => {
                self.frames.push(Frame::PipeRight(*right));
                Action::ForkPipeLeft { node: *left }
            },
            ASTNode::Background { command } => {
                self.frames.push(Frame::BackgroundWait);
                Action::ForkBackground { node: *command }
            },
            ASTNode::Subshell { command } => {
                self.frames.push(Frame::SubshellWait);
                Action::ForkSubshell { node: *command }
            },
            other => {
                let subs = node_substitutions(&other);
                if subs.len() > 0 {
                    self.frames.push(Frame::Expand(other));
                    Action::RunSubstitutions { commands: subs }
                } else {
                    let empty: Vec<String> = Vec::new();
                    proof {
                        assert(empty@.map_values(|s: String| s@) =~= Seq::<Seq<char>>::empty());
                    }
                    self.dispatch(other, empty)
                }
            },
        }
    }

    /// Dispatches a node whose substitution outputs have been captured.
    fn dispatch(&mut self, node: ASTNode, outs: Vec<String>) -> (r: Action)
        ensures
            dispatch_post(
                node,
                outs@.map_values(|s: String| s@),
                old(self).frames@,
                old(self).state,
                final(self).frames@,
                final(self).state,
                r,
            ),
    {
        let ghost ov = outs@.map_values(|s: String| s@);
        match node {
            ASTNode::Command { name, args } => {
                let ghost nv = name@;
                let ghost av = args@.map_values(|w: Word| w@);
                let mut words: Vec<Word> = Vec::new();
                words.push(name);
                let mut rest_args = args;
                words.append(&mut rest_args);
                proof {
                    assert(words@.map_values(|w: Word| w@) =~= seq![nv] + av);
                    assert(words@.map_values(|w: Word| w@).skip(0) =~= seq![nv] + av);
                    assert(ov.skip(0) =~= ov);
                }
                match expand_words(&self.state, &words, 0, &outs, 0) {
                    Err(e) => {
                        let ghost ge = e;
                        let r = self.resolve(Err(e));
                        proof {
                            assert(err_matches(
                                ge,
                                (match expand_words_spec(
                                    seq![nv] + av,
                                    env_view(old(self).state.environment@),
                                    old(self).state.last_status,
                                    old(self).state.pid,
                                    ov,
                                ) {
                                    Err(ev) => ev,
                                    Ok(_) => ExpandErrV::Short,
                                }),
                            ));
                        }
                        r
                    },
                    Ok(mut strs) => {
                        proof {
                            lemma_expand_words_len(
                                seq![nv] + av,
                                env_view(self.state.environment@),
                                self.state.last_status,
                                self.state.pid,
                                ov,
                            );
                            assert(strs@.map_values(|s: String| s@).len() == strs@.len());
                        }
                        let name_str = strs.remove(0);
                        proof {
                            assert(strs@.map_values(|s: String| s@) =~= (match expand_words_spec(
                                seq![nv] + av,
                                env_view(self.state.environment@),
                                self.state.last_status,
                                self.state.pid,
                                ov,
                            ) {
                                Ok(x) => x.drop_first(),
                                Err(_) => Seq::empty(),
                            }));
                        }
                        if is_builtin(name_str.as_str()) {
                            self.frames.push(Frame::BuiltinWait);
                            Action::RunBuiltin { name: name_str, args: strs }
                        } else {
                            let nm = name_str.clone();
                            self.frames.push(Frame::CommandWait(nm));
                            proof {
                                assert(self.frames@.drop_last() =~= old(self).frames@);
                            }
                            Action::RunExternal { name: name_str, args: strs }
                        }
                    },
                }
            },
            ASTNode::Assignment { var, val } => {
                match self.state.expand_word_to_string(&val, &outs) {
                    Err(e) => {
                        let ghost ge = e;
                        let r = self.resolve(Err(e));
                        proof {
                            assert(err_matches(
                                ge,
                                (match expand_parts_spec(
                                    val@,
                                    env_view(old(self).state.environment@),
                                    old(self).state.last_status,
                                    old(self).state.pid,
                                    ov,
                                ) {
                                    Err(ev) => ev,
                                    Ok(_) => ExpandErrV::Short,
                                }),
                            ));
                        }
                        r
                    },
                    Ok(v) => {
                        self.state.env_set(var.as_str(), v);
                        self.resolve(Ok(0))
                    },
                }
            },
            ASTNode::Redirect { command, fd, target, mode } => {
                match target {
                    RedirectTarget::File(w) => {
                        match self.state.expand_word_to_string(&w, &outs) {
                            Err(e) => {
                                let ghost ge = e;
                                let r = self.resolve(Err(e));
                                proof {
                                    assert(err_matches(
                                        ge,
                                        (match expand_parts_spec(
                                            w@,
                                            env_view(old(self).state.environment@),
                                            old(self).state.last_status,
                                            old(self).state.pid,
                                            ov,
                                        ) {
                                            Err(ev) => ev,
                                            Ok(_) => ExpandErrV::Short,
                                        }),
                                    ));
                                }
                                r
                            },
                            Ok(path) => {
                                self.frames.push(Frame::RedirectWait);
                                Action::RedirectFile { node: *command, fd, path, mode }
                            },
                        }
                    },
                    RedirectTarget::Descriptor(n) => {
                        self.frames.push(Frame::RedirectWait);
                        Action::RedirectDupFd { node: *command, fd, target_fd: n }
                    },
                    RedirectTarget::HereDoc(content) => {
                        self.frames.push(Frame::RedirectWait);
                        Action::RedirectHere { node: *command, fd, content }
                    },
                    RedirectTarget::HereString(content) => {
                        self.frames.push(Frame::RedirectWait);
                        let line = content.concat("\n");
                        Action::RedirectHere { node: *command, fd, content: line }
                    },
                }
            },
            _ => Action::StackError,
        }
    }
}

/// The exit status standing for a signal-killed child.
fn sig_code(sig: i32) -> (r: i32)
    ensures
        r == sig_code_spec(sig),
{
    if 0 < sig && sig < 128 {
        128 + sig
    } else {
        1
    }
}

} // verus!
