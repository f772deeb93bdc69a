//! The autonomous research loop: deciding on a model's answers, running its
//! actions, and condensing a context that grows too long.

use vstd::prelude::*;
use vstd::string::*;
use vstd::utf8::encode_utf8;

use crate::format::{dec, dec_of};
use crate::json::{
    boolean, from_text, get_str, json_body, json_text, json_value, member_of, natural, read_body,
    str_member,
    string, to_text, tree, Object, Tree,
};
use crate::serving::streaming::obj;
use crate::text::{cat2, cat3, chars_of, same, slice_of, string_of};

verus! {

/// The number of experiments where none is given.
pub fn default_max_experiments() -> (r: u32)
    ensures
        r == 100,
{
    100
}

/// The token limit of a step where none is given.
pub fn default_max_tokens() -> (r: usize)
    ensures
        r == 4096,
{
    4096
}

/// The context's token limit where none is given.
pub fn default_context_limit() -> (r: u32)
    ensures
        r == 28000,
{
    28000
}

/// The limit of an observation where none is given.
pub fn default_obs_limit() -> (r: usize)
    ensures
        r == 8000,
{
    8000
}

/// So many failures in a row end the loop.
pub const MAX_CONSECUTIVE_FAILURES: u32 = 3;

/// The tokens that are kept free for a step.
pub const CONDENSE_HEADROOM: u32 = 8000;

/// What the agent is told.
pub const SYSTEM_PROMPT: &'static str =
    "You are an autonomous ML research agent. Your goal is to iteratively improve a training script (`train.py`) by running experiments and tracking results.\n\nEach turn you output one JSON object with these fields:\n\n  {\"thought\": \"...\", \"action\": \"...\", \"command\": \"...\", \"path\": \"...\", \"old_str\": \"...\", \"new_str\": \"...\", \"message\": \"...\"}\n\nActions:\n  - \"bash\": Run a shell command. Fill `command`; leave others empty.\n  - \"edit\": Edit or create a file.\n      * To replace text: fill `path`, `old_str` (exact unique match), `new_str`.\n      * To create a file: fill `path` and `new_str`; leave `old_str` empty.\n  - \"read_file\": Read a file. Fill `path`; leave others empty.\n  - \"finish\": You are done. Fill `message` with a summary of all experiments and the best val_bpb achieved; leave others empty.\n\nALL fields must be present in every response (use \"\" for unused fields).\n\nWorkflow for each experiment:\n  1. Study current train.py and results so far.\n  2. Form a hypothesis and make a targeted edit to train.py.\n  3. Commit before running: `git add -A && git commit -m \"experiment: <description>\"`.\n  4. Run the experiment: `uv run train.py > run.log 2>&1`.\n  5. Extract the result: `grep \"^val_bpb:\" run.log`.\n  6. If val_bpb improved, advance the branch: `echo \"<exp#>\\t<description>\\t<val_bpb>\" >> results.tsv`.\n  7. If val_bpb did NOT improve, reset: `git reset --hard HEAD~1`.\n  8. Repeat with a new hypothesis.\n\nGuidelines:\n  - Only modify `train.py` unless the program instructions say otherwise.\n  - Each experiment should test ONE hypothesis. Do not make multiple changes at once.\n  - Always commit before running so you can cleanly revert failed experiments.\n  - Be systematic: try the most impactful changes first (architecture, lr, batch size) before fine-tuning.\n  - Read run.log carefully for errors or warnings before concluding an experiment failed.\n  - Keep a running mental model of what you have tried and what worked.";

/// The schema of a step.
pub const ACTION_SCHEMA: &'static str =
    "{\n    \"type\": \"object\",\n    \"properties\": {\n        \"thought\":  { \"type\": \"string\", \"minLength\": 1 },\n        \"action\":   { \"type\": \"string\", \"enum\": [\"bash\", \"edit\", \"read_file\", \"finish\"] },\n        \"command\":  { \"type\": \"string\" },\n        \"path\":     { \"type\": \"string\" },\n        \"old_str\":  { \"type\": \"string\" },\n        \"new_str\":  { \"type\": \"string\" },\n        \"message\":  { \"type\": \"string\" }\n    },\n    \"required\": [\"thought\", \"action\", \"command\", \"path\", \"old_str\", \"new_str\", \"message\"],\n    \"additionalProperties\": false\n}";

/// The schema of the last step.
pub const FINISH_SCHEMA: &'static str =
    "{\n    \"type\": \"object\",\n    \"properties\": {\n        \"thought\":  { \"type\": \"string\", \"minLength\": 1 },\n        \"action\":   { \"type\": \"string\", \"const\": \"finish\" },\n        \"command\":  { \"type\": \"string\" },\n        \"path\":     { \"type\": \"string\" },\n        \"old_str\":  { \"type\": \"string\" },\n        \"new_str\":  { \"type\": \"string\" },\n        \"message\":  { \"type\": \"string\", \"minLength\": 1 }\n    },\n    \"required\": [\"thought\", \"action\", \"command\", \"path\", \"old_str\", \"new_str\", \"message\"],\n    \"additionalProperties\": false\n}";

/// The schema of a step: the last one has to finish.
pub fn step_schema(step: u32, max_experiments: u32) -> (r: &'static str)
    ensures
        r@ == (if step == max_experiments {
            FINISH_SCHEMA@
        } else {
            ACTION_SCHEMA@
        }),
{
    if step == max_experiments {
        FINISH_SCHEMA
    } else {
        ACTION_SCHEMA
    }
}

/// The task of a program.
pub fn task_prompt(program: &str) -> (r: String)
    ensures
        r@ == "Here are your research instructions (program.md):\n\n"@ + program@
            + "\n\nBegin your research."@,
{
    cat3(
        "Here are your research instructions (program.md):\n\n",
        program,
        "\n\nBegin your research.",
    )
}

// ---------------------------------------------------------------------------
// Degenerate text
// ---------------------------------------------------------------------------

/// A character that is not ASCII, or a control character.
pub open spec fn odd(c: char) -> bool {
    c as u32 >= 0x7f || (c as u32) < 0x20
}

/// How many of the first `n` characters are odd.
pub open spec fn odd_count(s: Seq<char>, n: int) -> int
    decreases n,
{
    if n <= 0 {
        0
    } else {
        odd_count(s, n - 1) + (if odd(s[n - 1]) {
            1int
        } else {
            0
        })
    }
}

/// A text of ten bytes or more is degenerate where more than two fifths of its
/// characters are odd.
pub open spec fn degenerate(s: Seq<char>) -> bool {
    encode_utf8(s).len() >= 10 && odd_count(s, s.len() as int) * 5 > s.len() * 2
}

proof fn lemma_odd_count(s: Seq<char>, n: int)
    requires
        0 <= n <= s.len(),
    ensures
        0 <= odd_count(s, n) <= n,
    decreases n,
{
    if n > 0 {
        lemma_odd_count(s, n - 1);
    }
}

/// Whether a text is degenerate.
pub fn is_degenerate(text: &str) -> (r: bool)
    ensures
        r == degenerate(text@),
{
    if text.as_bytes().len() < 10 {
        return false;
    }
    let s = chars_of(text);
    let mut count: usize = 0;
    let mut i: usize = 0;
    while i < s.len()
        invariant
            i <= s@.len(),
            count <= i,
            count == odd_count(s@, i as int),
        decreases s.len() - i,
    {
        let u: u32 = s[i] as u32;
        if u >= 0x7f || u < 0x20 {
            count += 1;
        }
        i += 1;
    }
    (count as u128) * 5 > (s.len() as u128) * 2
}

// ---------------------------------------------------------------------------
// Observations
// ---------------------------------------------------------------------------

/// An observation in at most so many characters: one of more bytes keeps half of
/// them from each end, and says how many bytes are too many.
pub open spec fn truncated(obs: Seq<char>, max_chars: int) -> Seq<char> {
    let size = encode_utf8(obs).len();
    if size <= max_chars {
        obs
    } else {
        let half = max_chars / 2;
        let head = if half <= obs.len() {
            obs.take(half)
        } else {
            obs
        };
        let tail = if half <= obs.len() {
            obs.skip(obs.len() - half)
        } else {
            obs
        };
        head + "\n\n... ("@ + dec((size - max_chars) as nat) + " chars truncated) ...\n\n"@ + tail
    }
}

/// An observation in at most so many characters.
pub fn truncate_observation(obs: &str, max_chars: usize) -> (r: String)
    ensures
        r@ == truncated(obs@, max_chars as int),
{
    let size = obs.as_bytes().len();
    if size <= max_chars {
        return obs.to_owned();
    }
    let s = chars_of(obs);
    let half = max_chars / 2;
    let cut: usize = if half <= s.len() {
        half
    } else {
        s.len()
    };
    let head = slice_of(s.as_slice(), 0, cut);
    let tail = slice_of(s.as_slice(), s.len() - cut, s.len());
    let mut r = string_of(head.as_slice());
    r.append("\n\n... (");
    r.append(dec_of((size - max_chars) as u64).as_str());
    r.append(" chars truncated) ...\n\n");
    r.append(string_of(tail.as_slice()).as_str());
    proof {
        assert(head@ =~= s@.take(cut as int));
        assert(tail@ =~= s@.skip(s@.len() - cut));
        if half > s@.len() {
            assert(s@.take(cut as int) =~= s@);
            assert(s@.skip(0) =~= s@);
        }
    }
    r
}

/// The observation of a tool server's answer.
pub open spec fn observation_in(answer: Tree) -> Seq<char> {
    match str_member(answer, "observation"@) {
        Some(s) => s,
        None => "(no observation)"@,
    }
}

/// The observation of a tool server's answer.
pub fn observation_of(answer: &serde_json::Value) -> (r: String)
    ensures
        r@ == observation_in(tree(*answer)),
{
    match get_str(answer, "observation") {
        Some(s) => s.to_owned(),
        None => "(no observation)".to_owned(),
    }
}

/// The observation in the body of a tool server's answer, or why there is none: the
/// body is no JSON.
pub fn observation_in_body(body: &[u8]) -> (r: Result<String, String>)
    ensures
        match json_body(body@) {
            Ok(t) => r is Ok && r->Ok_0@ == observation_in(t),
            Err(e) => r is Err && r->Err_0@ == "parse response ("@ + dec(body@.len()) + "B): "@ + e,
        },
{
    match read_body(body) {
        Ok(v) => Ok(observation_of(&v)),
        Err(e) => {
            let mut m = "parse response (".to_owned();
            m.append(dec_of(body.len() as u64).as_str());
            m.append("B): ");
            m.append(e.as_str());
            Err(m)
        },
    }
}

// ---------------------------------------------------------------------------
// Condensing
// ---------------------------------------------------------------------------

/// A finished step.
pub struct Turn {
    pub assistant_json: String,
    pub observation: String,
}

/// What a step holds.
pub type TurnView = (Seq<char>, Seq<char>);

/// What steps hold.
pub open spec fn history_view(h: Seq<Turn>) -> Seq<TurnView> {
    h.map_values(|t: Turn| (t.assistant_json@, t.observation@))
}

/// The estimate of a step's tokens: a quarter of its bytes and framing, counted
/// in 32 bits.
pub open spec fn turn_tokens(t: TurnView) -> int {
    ((encode_utf8(t.0).len() + encode_utf8(t.1).len() + 30) as int / 4) % 0x1_0000_0000
}

/// The tokens of the steps from `i` on.
pub open spec fn tokens_from(h: Seq<TurnView>, i: int) -> int
    decreases h.len() - i,
{
    if i < 0 || i >= h.len() {
        0
    } else {
        turn_tokens(h[i]) + tokens_from(h, i + 1)
    }
}

/// Where the steps that fit a budget start, those from `i` on being known to fit.
pub open spec fn start_from(h: Seq<TurnView>, budget: int, i: int) -> int
    decreases i,
{
    if i <= 0 || tokens_from(h, i - 1) > budget {
        i
    } else {
        start_from(h, budget, i - 1)
    }
}

/// The tokens that replayed steps may take.
pub open spec fn replay_budget(limit: u32, prefix: u32) -> int {
    if limit >= prefix + CONDENSE_HEADROOM {
        limit - (prefix + CONDENSE_HEADROOM)
    } else {
        0
    }
}

/// The tokens that replayed steps may take.
pub fn budget_of(limit: u32, prefix: u32) -> (r: u32)
    requires
        prefix + CONDENSE_HEADROOM <= u32::MAX,
    ensures
        r == replay_budget(limit, prefix),
{
    let kept = prefix + CONDENSE_HEADROOM;
    if limit >= kept {
        limit - kept
    } else {
        0
    }
}

/// Where the replayed steps start: the most recent ones that fit the budget.
pub fn replay_start(history: &[Turn], budget: u32) -> (r: usize)
    requires
        forall|i: int|
            0 <= i < history@.len() ==> encode_utf8(
                (#[trigger] history@[i]).assistant_json@,
            ).len() + encode_utf8(history@[i].observation@).len() + 30 <= usize::MAX,
    ensures
        r <= history@.len(),
        r == start_from(history_view(history@), budget as int, history@.len() as int),
{
    let ghost h = history_view(history@);
    let mut i: usize = history.len();
    let mut used: u64 = 0;
    while i > 0
        invariant
            i <= history@.len(),
            h == history_view(history@),
            used == tokens_from(h, i as int),
            used <= budget,
            start_from(h, budget as int, history@.len() as int) == start_from(
                h,
                budget as int,
                i as int,
            ),
            forall|i: int|
                0 <= i < history@.len() ==> encode_utf8(
                    (#[trigger] history@[i]).assistant_json@,
                ).len() + encode_utf8(history@[i].observation@).len() + 30 <= usize::MAX,
        decreases i,
    {
        let t = &history[i - 1];
        let size: usize = t.assistant_json.as_str().as_bytes().len()
            + t.observation.as_str().as_bytes().len() + 30;
        let tokens: u64 = ((size / 4) as u64) % 0x1_0000_0000;
        proof {
            assert(h[i - 1] == (t.assistant_json@, t.observation@));
            assert(tokens == turn_tokens(h[i - 1]));
        }
        if used + tokens > budget as u64 {
            return i;
        }
        used = used + tokens;
        i -= 1;
    }
    i
}

/// What a condensed context is made of, in order.
pub enum AgentOp {
    System(String),
    User(String),
    Assistant(String),
    Cue,
    Seal,
}

/// What an operation holds.
pub enum AgentView {
    System(Seq<char>),
    User(Seq<char>),
    Assistant(Seq<char>),
    Cue,
    Seal,
}

impl View for AgentOp {
    type V = AgentView;

    open spec fn view(&self) -> AgentView {
        match *self {
            AgentOp::System(s) => AgentView::System(s@),
            AgentOp::User(s) => AgentView::User(s@),
            AgentOp::Assistant(s) => AgentView::Assistant(s@),
            AgentOp::Cue => AgentView::Cue,
            AgentOp::Seal => AgentView::Seal,
        }
    }
}

/// What operations hold.
pub open spec fn ops_view(v: Seq<AgentOp>) -> Seq<AgentView> {
    v.map_values(|o: AgentOp| o@)
}

/// The note in place of dropped steps.
pub open spec fn condensed_note(dropped: nat, kept: nat) -> Seq<char> {
    "[Earlier conversation with "@ + dec(dropped) + " turns has been condensed. The "@ + dec(kept)
        + " most recent turns follow.]"@
}

/// The replay of the steps from `a` up to `b`.
pub open spec fn steps_ops(h: Seq<TurnView>, a: int, b: int) -> Seq<AgentView>
    decreases b - a,
{
    if a >= b {
        Seq::empty()
    } else {
        steps_ops(h, a, b - 1) + seq![
            AgentView::Cue,
            AgentView::Assistant(h[b - 1].0),
            AgentView::Seal,
            AgentView::User("Observation:\n"@ + h[b - 1].1),
        ]
    }
}

/// The rebuilt context: the prompts, a note where steps were dropped, the steps
/// from `start` on, and a cue.
pub open spec fn condensed(task: Seq<char>, h: Seq<TurnView>, start: int) -> Seq<AgentView> {
    seq![AgentView::System(SYSTEM_PROMPT@), AgentView::User(task)] + (if start > 0 {
        seq![AgentView::User(condensed_note(start as nat, (h.len() - start) as nat))]
    } else {
        Seq::empty()
    }) + steps_ops(h, start, h.len() as int) + seq![AgentView::Cue]
}

/// The rebuilt context.
pub fn condense_context(task: &str, history: &[Turn], start: usize) -> (r: Vec<AgentOp>)
    requires
        start <= history@.len(),
    ensures
        ops_view(r@) == condensed(task@, history_view(history@), start as int),
{
    let ghost h = history_view(history@);
    let mut ops: Vec<AgentOp> = Vec::new();
    ops.push(AgentOp::System(SYSTEM_PROMPT.to_owned()));
    ops.push(AgentOp::User(task.to_owned()));
    if start > 0 {
        let mut note = "[Earlier conversation with ".to_owned();
        note.append(dec_of(start as u64).as_str());
        note.append(" turns has been condensed. The ");
        note.append(dec_of((history.len() - start) as u64).as_str());
        note.append(" most recent turns follow.]");
        ops.push(AgentOp::User(note));
    }
    let ghost head = ops_view(ops@);
    let mut i: usize = start;
    proof {
        assert(head =~= seq![AgentView::System(SYSTEM_PROMPT@), AgentView::User(task@)] + (if start
            > 0 {
            seq![AgentView::User(condensed_note(start as nat, (h.len() - start) as nat))]
        } else {
            Seq::empty()
        }));
        assert(ops_view(ops@) =~= head + steps_ops(h, start as int, i as int));
    }
    while i < history.len()
        invariant
            start <= i <= history@.len(),
            h == history_view(history@),
            ops_view(ops@) == head + steps_ops(h, start as int, i as int),
        decreases history.len() - i,
    {
        let ghost before = ops_view(ops@);
        ops.push(AgentOp::Cue);
        ops.push(AgentOp::Assistant(history[i].assistant_json.clone()));
        ops.push(AgentOp::Seal);
        ops.push(AgentOp::User(cat2("Observation:\n", history[i].observation.as_str())));
        proof {
            let more = seq![
                AgentView::Cue,
                AgentView::Assistant(h[i as int].0),
                AgentView::Seal,
                AgentView::User("Observation:\n"@ + h[i as int].1),
            ];
            assert(ops_view(ops@) =~= before + more);
            assert(head + (steps_ops(h, start as int, i as int) + more) =~= head + steps_ops(
                h,
                start as int,
                i as int,
            ) + more);
        }
        i += 1;
    }
    let ghost before = ops_view(ops@);
    ops.push(AgentOp::Cue);
    proof {
        assert(ops_view(ops@) =~= before + seq![AgentView::Cue]);
    }
    ops
}

/// The replayed steps are the most recent ones that fit the budget, and as many
/// as fit.
pub proof fn law_the_replay_fits_and_is_maximal(h: Seq<TurnView>, budget: int)
    requires
        budget >= 0,
    ensures
        ({
            let s = start_from(h, budget, h.len() as int);
            &&& 0 <= s <= h.len()
            &&& tokens_from(h, s) <= budget
            &&& s > 0 ==> tokens_from(h, s - 1) > budget
        }),
{
    lemma_start(h, budget, h.len() as int);
}

proof fn lemma_start(h: Seq<TurnView>, budget: int, i: int)
    requires
        0 <= i <= h.len(),
        tokens_from(h, i) <= budget,
    ensures
        ({
            let s = start_from(h, budget, i);
            &&& 0 <= s <= i
            &&& tokens_from(h, s) <= budget
            &&& s > 0 ==> tokens_from(h, s - 1) > budget
        }),
    decreases i,
{
    if i > 0 && tokens_from(h, i - 1) <= budget {
        lemma_start(h, budget, i - 1);
    }
}

// ---------------------------------------------------------------------------
// Steps
// ---------------------------------------------------------------------------

/// What the agent wants done.
pub struct Action {
    pub action: String,
    pub command: String,
    pub path: String,
    pub old_str: String,
    pub new_str: String,
}

/// What an action holds.
pub struct ActionView {
    pub action: Seq<char>,
    pub command: Seq<char>,
    pub path: Seq<char>,
    pub old_str: Seq<char>,
    pub new_str: Seq<char>,
}

impl View for Action {
    type V = ActionView;

    open spec fn view(&self) -> ActionView {
        ActionView {
            action: self.action@,
            command: self.command@,
            path: self.path@,
            old_str: self.old_str@,
            new_str: self.new_str@,
        }
    }
}

/// What follows an answer of the model.
pub enum Step {
    /// Too many failures in a row: the loop ends.
    GiveUp,
    /// The answer was cut off: say so and go on.
    AskShorter,
    /// The answer was degenerate: rebuild the context where there is a history,
    /// and go on.
    Rebuild { condense: bool },
    /// The agent is done.
    Finish(String),
    /// Run an action.
    Run(Action),
}

/// What a step holds.
pub enum StepView {
    GiveUp,
    AskShorter,
    Rebuild { condense: bool },
    Finish(Seq<char>),
    Run(ActionView),
}

impl View for Step {
    type V = StepView;

    open spec fn view(&self) -> StepView {
        match *self {
            Step::GiveUp => StepView::GiveUp,
            Step::AskShorter => StepView::AskShorter,
            Step::Rebuild { condense } => StepView::Rebuild { condense },
            Step::Finish(m) => StepView::Finish(m@),
            Step::Run(a) => StepView::Run(a@),
        }
    }
}

/// A field of an answer, empty where it is absent or no string.
pub open spec fn field(t: Tree, key: Seq<char>) -> Seq<char> {
    match str_member(t, key) {
        Some(s) => s,
        None => Seq::empty(),
    }
}

fn get_field(v: &serde_json::Value, key: &str) -> (r: String)
    ensures
        r@ == field(tree(*v), key@),
{
    match get_str(v, key) {
        Some(s) => s.to_owned(),
        None => String::new(),
    }
}

/// The action of an answer: reading a file is a command that prints it.
pub open spec fn action_of(t: Tree) -> ActionView {
    let reads = field(t, "action"@) == "read_file"@;
    ActionView {
        action: if reads {
            "bash"@
        } else {
            field(t, "action"@)
        },
        command: if reads {
            "cat -n "@ + field(t, "path"@)
        } else {
            field(t, "command"@)
        },
        path: field(t, "path"@),
        old_str: field(t, "old_str"@),
        new_str: field(t, "new_str"@),
    }
}

/// The failures in a row behind an answer, and what follows it.
pub open spec fn decided(failures: int, history: nat, answer: Option<Tree>) -> (int, StepView) {
    match answer {
        None => if failures + 1 >= MAX_CONSECUTIVE_FAILURES {
            (failures + 1, StepView::GiveUp)
        } else {
            (failures + 1, StepView::AskShorter)
        },
        Some(t) => if degenerate(field(t, "thought"@)) {
            if failures + 1 >= MAX_CONSECUTIVE_FAILURES {
                (failures + 1, StepView::GiveUp)
            } else {
                (failures + 1, StepView::Rebuild { condense: history > 0 })
            }
        } else if field(t, "action"@) == "finish"@ {
            (0, StepView::Finish(field(t, "message"@)))
        } else {
            (0, StepView::Run(action_of(t)))
        },
    }
}

/// The state of a research loop.
pub struct Agent {
    failures: u32,
    history: Vec<Turn>,
    message: Option<String>,
}

impl Agent {
    /// The failures in a row.
    pub closed spec fn failures(&self) -> int {
        self.failures as int
    }

    /// The finished steps.
    pub closed spec fn history(&self) -> Seq<TurnView> {
        history_view(self.history@)
    }

    /// The agent's last word.
    pub closed spec fn message(&self) -> Option<Seq<char>> {
        match self.message {
            Some(m) => Some(m@),
            None => None,
        }
    }

    /// The loop goes on only below the limit of failures.
    pub open spec fn running(&self) -> bool {
        0 <= self.failures() < MAX_CONSECUTIVE_FAILURES
    }

    /// A loop that has not begun.
    pub fn new() -> (r: Agent)
        ensures
            r.failures() == 0,
            r.history().len() == 0,
            r.message() is None,
            r.running(),
    {
        Agent { failures: 0, history: Vec::new(), message: None }
    }

    /// The failures in a row.
    pub fn failures_in_a_row(&self) -> (r: u32)
        ensures
            r == self.failures(),
    {
        self.failures
    }

    /// Whether the context is rebuilt before a step: where the step would pass
    /// the limit, and there is a history.
    pub fn condenses(&self, context_tokens: u32, limit: u32) -> (r: bool)
        ensures
            r == (context_tokens + CONDENSE_HEADROOM > limit && self.history().len() > 0),
    {
        proof {
            assert(self.history().len() == self.history@.len());
        }
        context_tokens as u64 + CONDENSE_HEADROOM as u64 > limit as u64 && self.history.len() > 0
    }

    /// Handles an answer of the model, read as JSON; `None` where it is none.
    pub fn on_value(&mut self, answer: Option<serde_json::Value>) -> (r: Step)
        requires
            old(self).running(),
        ensures
            (final(self).failures(), r@) == decided(
                old(self).failures(),
                old(self).history().len(),
                match answer {
                    Some(v) => Some(tree(v)),
                    None => None,
                },
            ),
            final(self).history() == old(self).history(),
            final(self).message() == (match r@ {
                StepView::Finish(m) => Some(m),
                _ => old(self).message(),
            }),
            r@ is GiveUp || final(self).running(),
    {
        proof {
            assert(self.history().len() == self.history@.len());
        }
        match answer {
            None => {
                self.failures += 1;
                if self.failures >= MAX_CONSECUTIVE_FAILURES {
                    Step::GiveUp
                } else {
                    Step::AskShorter
                }
            },
            Some(v) => {
                let thought = get_field(&v, "thought");
                if is_degenerate(thought.as_str()) {
                    self.failures += 1;
                    return if self.failures >= MAX_CONSECUTIVE_FAILURES {
                        Step::GiveUp
                    } else {
                        Step::Rebuild { condense: self.history.len() > 0 }
                    };
                }
                self.failures = 0;
                let action = get_field(&v, "action");
                if same(action.as_str(), "finish") {
                    let m = get_field(&v, "message");
                    self.message = Some(m.clone());
                    return Step::Finish(m);
                }
                let path = get_field(&v, "path");
                let reads = same(action.as_str(), "read_file");
                let command = if reads {
                    cat2("cat -n ", path.as_str())
                } else {
                    get_field(&v, "command")
                };
                let action = if reads {
                    "bash".to_owned()
                } else {
                    action
                };
                Step::Run(
                    Action {
                        action,
                        command,
                        path,
                        old_str: get_field(&v, "old_str"),
                        new_str: get_field(&v, "new_str"),
                    },
                )
            },
        }
    }

    /// Handles an answer of the model.
    pub fn on_answer(&mut self, raw: &str) -> (r: Step)
        requires
            old(self).running(),
        ensures
            (final(self).failures(), r@) == decided(
                old(self).failures(),
                old(self).history().len(),
                json_value(raw@),
            ),
            final(self).history() == old(self).history(),
            final(self).message() == (match r@ {
                StepView::Finish(m) => Some(m),
                _ => old(self).message(),
            }),
            r@ is GiveUp || final(self).running(),
    {
        let v = from_text(raw);
        self.on_value(v)
    }

    /// Handles what an action's tool answered: remembers the step and says what
    /// the model is told.
    pub fn on_observation(&mut self, raw: &str, result: Result<String, String>, max_chars: usize) -> (r:
        String)
        ensures
            ({
                let seen = truncated(
                    match result {
                        Ok(o) => o@,
                        Err(e) => "Tool server error: "@ + e@,
                    },
                    max_chars as int,
                );
                &&& final(self).history() == old(self).history().push((raw@, seen))
                &&& r@ == "Observation:\n"@ + seen
            }),
            final(self).failures() == old(self).failures(),
            final(self).message() == old(self).message(),
    {
        let text = match result {
            Ok(o) => o,
            Err(e) => cat2("Tool server error: ", e.as_str()),
        };
        let seen = truncate_observation(text.as_str(), max_chars);
        let told = cat2("Observation:\n", seen.as_str());
        let ghost before = self.history@;
        let ghost x = (raw@, seen@);
        self.history.push(Turn { assistant_json: raw.to_owned(), observation: seen });
        proof {
            assert(history_view(self.history@) =~= history_view(before).push(x));
        }
        told
    }

    /// The finished steps.
    pub fn turns(&self) -> (r: &[Turn])
        ensures
            history_view(r@) == self.history(),
    {
        self.history.as_slice()
    }

    /// The result of the loop.
    pub fn result(&self) -> (r: String)
        ensures
            r@ == json_text(
                Tree::Obj(
                    obj().insert("finished"@, Tree::Bool(self.message() is Some)).insert(
                        "message"@,
                        Tree::Str(
                            match self.message() {
                                Some(m) => m,
                                None => ""@,
                            },
                        ),
                    ).insert("steps"@, Tree::Int(self.history().len() as int)),
                ),
            ),
    {
        let mut o = Object::new();
        o.put("finished", boolean(self.message.is_some()));
        o.put(
            "message",
            match &self.message {
                Some(m) => string(m.as_str()),
                None => string(""),
            },
        );
        o.put("steps", natural(self.history.len() as u64));
        let v = o.build();
        proof {
            assert(self.history().len() == self.history@.len());
        }
        to_text(&v)
    }
}

/// What the model is told behind an answer that was cut off.
pub const TOO_LONG: &'static str =
    "Observation: Your response was truncated because it was too long. Be more concise.";

/// The failures in a row behind `n` failed answers.
pub open spec fn failed_times(failures: int, history: nat, n: nat) -> int
    decreases n,
{
    if n == 0 {
        failures
    } else {
        decided(failed_times(failures, history, (n - 1) as nat), history, None).0
    }
}

/// The limit of failures in a row ends the loop, and a good answer starts the
/// count anew.
pub proof fn law_failures_in_a_row_end_the_loop(history: nat, t: Tree)
    ensures
        decided(failed_times(0, history, 2), history, None).1 is GiveUp,
        decided(failed_times(0, history, 1), history, None).1 is AskShorter,
        !degenerate(field(t, "thought"@)) ==> decided(failed_times(0, history, 2), history, Some(t)).0
            == 0,
{
    reveal_with_fuel(failed_times, 3);
}

/// A text is degenerate exactly where it has ten bytes or more and, of each five
/// of its characters, more than two are no printable ASCII; each character counts
/// once.
pub proof fn law_odd_characters_are_counted(s: Seq<char>, c: char)
    ensures
        odd_count(Seq::empty(), 0) == 0,
        odd_count(s.push(c), s.len() as int + 1) == odd_count(s, s.len() as int) + (if ' ' <= c
            && c <= '~' {
            0int
        } else {
            1
        }),
        degenerate(s) <==> encode_utf8(s).len() >= 10 && 5 * odd_count(s, s.len() as int) > 2
            * s.len(),
{
    lemma_odd_prefix(s, s.push(c), s.len() as int);
}

proof fn lemma_odd_prefix(s: Seq<char>, t: Seq<char>, n: int)
    requires
        n <= s.len(),
        n <= t.len(),
        forall|i: int| 0 <= i < n ==> s[i] == t[i],
    ensures
        odd_count(s, n) == odd_count(t, n),
    decreases n,
{
    if n > 0 {
        lemma_odd_prefix(s, t, n - 1);
    }
}

/// An observation that fits stays as it is. One that does not keeps as many
/// characters from its start as from its end, half of what fits, and says between
/// them how many bytes there are too many.
pub proof fn law_a_long_observation_keeps_both_ends(obs: Seq<char>, max_chars: nat)
    ensures
        encode_utf8(obs).len() <= max_chars ==> truncated(obs, max_chars as int) == obs,
        encode_utf8(obs).len() > max_chars && max_chars <= obs.len() ==> ({
            let r = truncated(obs, max_chars as int);
            let half = (max_chars / 2) as int;
            let note = "\n\n... ("@ + dec((encode_utf8(obs).len() - max_chars) as nat)
                + " chars truncated) ...\n\n"@;
            &&& r.len() == 2 * half + note.len()
            &&& r.take(half) == obs.take(half)
            &&& r.skip(r.len() - half) == obs.skip(obs.len() - half)
            &&& r.subrange(half, half + note.len() as int) == note
        }),
{
    if encode_utf8(obs).len() > max_chars && max_chars <= obs.len() {
        let r = truncated(obs, max_chars as int);
        let half = (max_chars / 2) as int;
        let note = "\n\n... ("@ + dec((encode_utf8(obs).len() - max_chars) as nat)
            + " chars truncated) ...\n\n"@;
        assert(r =~= obs.take(half) + note + obs.skip(obs.len() - half));
        assert(r.take(half) =~= obs.take(half));
        assert(r.skip(r.len() - half) =~= obs.skip(obs.len() - half));
        assert(r.subrange(half, half + note.len() as int) =~= note);
    }
}

/// The tokens of the steps from a place on are the sum of the steps' own, each a
/// quarter of its bytes and framing.
pub proof fn law_steps_cost_their_quarter(h: Seq<TurnView>, t: TurnView, i: int)
    requires
        0 <= i <= h.len(),
    ensures
        tokens_from(h, h.len() as int) == 0,
        tokens_from(h.push(t), i) == tokens_from(h, i) + turn_tokens(t),
        encode_utf8(t.0).len() + encode_utf8(t.1).len() + 30 < 0x1_0000_0000 ==> 4 * turn_tokens(t)
            <= encode_utf8(t.0).len() + encode_utf8(t.1).len() + 30 < 4 * turn_tokens(t) + 4,
    decreases h.len() - i,
{
    if i < h.len() {
        law_steps_cost_their_quarter(h, t, i + 1);
        assert(h.push(t)[i] == h[i]);
    } else {
        assert(h.push(t)[i] == t);
        assert(tokens_from(h.push(t), i + 1) == 0);
    }
}

/// The replay of steps is four operations each, in order: a cue, the answer, a
/// seal and the observation.
pub proof fn law_every_kept_step_is_replayed(h: Seq<TurnView>, a: int, b: int, k: int)
    requires
        0 <= a <= k < b <= h.len(),
    ensures
        steps_ops(h, a, b).len() == 4 * (b - a),
        steps_ops(h, a, b)[4 * (k - a)] is Cue,
        steps_ops(h, a, b)[4 * (k - a) + 1] == AgentView::Assistant(h[k].0),
        steps_ops(h, a, b)[4 * (k - a) + 2] is Seal,
        steps_ops(h, a, b)[4 * (k - a) + 3] == AgentView::User("Observation:\n"@ + h[k].1),
    decreases b - a,
{
    lemma_steps_len(h, a, b - 1);
    lemma_steps_len(h, a, b);
    if k < b - 1 {
        law_every_kept_step_is_replayed(h, a, b - 1, k);
    }
}

proof fn lemma_steps_len(h: Seq<TurnView>, a: int, b: int)
    requires
        a <= b,
    ensures
        steps_ops(h, a, b).len() == 4 * (b - a),
    decreases b - a,
{
    if a < b {
        lemma_steps_len(h, a, b - 1);
    }
}

/// A rebuilt context starts with the system prompt and the task, tells how many
/// steps were dropped and how many are kept where any were dropped, replays the
/// kept steps and ends with a cue.
pub proof fn law_a_rebuilt_context_keeps_the_recent_steps(task: Seq<char>, h: Seq<TurnView>, start: int)
    requires
        0 <= start <= h.len(),
    ensures
        ({
            let c = condensed(task, h, start);
            let lead = if start > 0 {
                3int
            } else {
                2
            };
            &&& c[0] == AgentView::System(SYSTEM_PROMPT@)
            &&& c[1] == AgentView::User(task)
            &&& start > 0 ==> c[2] == AgentView::User(
                "[Earlier conversation with "@ + dec(start as nat)
                    + " turns has been condensed. The "@ + dec((h.len() - start) as nat)
                    + " most recent turns follow.]"@,
            )
            &&& c.len() == lead + 4 * (h.len() - start) + 1
            &&& c.subrange(lead, c.len() - 1) == steps_ops(h, start, h.len() as int)
            &&& c.last() is Cue
        }),
{
    lemma_steps_len(h, start, h.len() as int);
    let c = condensed(task, h, start);
    let lead = if start > 0 {
        3int
    } else {
        2
    };
    assert(c.subrange(lead, c.len() - 1) =~= steps_ops(h, start, h.len() as int));
}

/// The tokens left for a replay are what the limit has over the prefix and the
/// headroom.
pub proof fn law_a_budget_leaves_the_headroom(limit: u32, prefix: u32)
    ensures
        limit >= prefix + CONDENSE_HEADROOM ==> replay_budget(limit, prefix) + prefix
            + CONDENSE_HEADROOM == limit,
        limit < prefix + CONDENSE_HEADROOM ==> replay_budget(limit, prefix) == 0,
{
}

/// An answer's action is its own, but for reading a file, which is a command that
/// prints it with its lines numbered; every other field is its own text, empty
/// where it is absent.
pub proof fn law_an_action_is_what_the_answer_asks(t: Tree, s: Seq<char>)
    ensures
        ({
            let a = action_of(t);
            &&& member_of(t, "action"@) == Some(Tree::Str("read_file"@)) ==> a.action == "bash"@
                && a.command == "cat -n "@ + a.path
            &&& member_of(t, "action"@) == Some(Tree::Str(s)) && s != "read_file"@ ==> a.action == s
            &&& member_of(t, "action"@) != Some(Tree::Str("read_file"@)) && member_of(t, "command"@)
                == Some(Tree::Str(s)) ==> a.command == s
            &&& member_of(t, "path"@) == Some(Tree::Str(s)) ==> a.path == s
            &&& member_of(t, "old_str"@) == Some(Tree::Str(s)) ==> a.old_str == s
            &&& member_of(t, "new_str"@) == Some(Tree::Str(s)) ==> a.new_str == s
            &&& member_of(t, "path"@) is None ==> a.path.len() == 0
            &&& member_of(t, "old_str"@) is None ==> a.old_str.len() == 0
            &&& member_of(t, "new_str"@) is None ==> a.new_str.len() == 0
        }),
{
    reveal_strlit("read_file");
    assert("read_file"@.len() == 9);
}

/// An answer that reads and is no noise starts the count of failures anew, and is
/// run unless it ends the loop with its message; any other is one failure more,
/// and the third in a row gives up.
pub proof fn law_an_answer_is_run_or_counted(failures: int, history: nat, answer: Option<Tree>)
    ensures
        ({
            let r = decided(failures, history, answer);
            let sound = answer is Some && !degenerate(field(answer->0, "thought"@));
            &&& sound ==> r.0 == 0 && (r.1 is Run || r.1 is Finish)
            &&& !sound ==> r.0 == failures + 1
            &&& r.1 is GiveUp <==> !sound && failures + 1 >= 3
            &&& sound && member_of(answer->0, "action"@) == Some(Tree::Str("finish"@)) ==> r.1
                == StepView::Finish(field(answer->0, "message"@))
            &&& sound && member_of(answer->0, "action"@) != Some(Tree::Str("finish"@)) ==> r.1
                == StepView::Run(action_of(answer->0))
            &&& r.1 is AskShorter <==> answer is None && failures + 1 < 3
            &&& answer is Some && !sound && failures + 1 < 3 ==> r.1 == StepView::Rebuild {
                condense: history > 0,
            }
        }),
{
    reveal_strlit("finish");
    assert("finish"@.len() == 6);
}

/// An answer's observation is its text, and a stand-in only where it has none.
pub proof fn law_an_observation_is_what_was_answered(t: Tree, s: Seq<char>)
    ensures
        member_of(t, "observation"@) == Some(Tree::Str(s)) ==> observation_in(t) == s,
        member_of(t, "observation"@) is None || !(member_of(t, "observation"@)->0 is Str)
            ==> observation_in(t) == "(no observation)"@,
{
}

} // verus!
