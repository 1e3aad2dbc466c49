//! The blocks that a flow is made of, the policy that its tools run under, and how
//! references between them are resolved.

use crate::error::{protocol, ErrorModel, RuntimeError};
use crate::error;
use crate::text::{append_text, chars_of, join2, join3, same_text};
use crate::text;
use vstd::prelude::*;

verus! {

/// A flow: phases that are run in order, then other flows.
pub struct FlowBlock {
    pub id: String,
    pub name: String,
    pub phase_refs: Vec<String>,
    pub subflow_refs: Vec<String>,
}

/// One step of a phase.
pub struct StepBlock {
    pub id: String,
    pub name: String,
    pub connection_refs: Vec<String>,
}

/// A phase: its instructions, the tools that it may use, and its steps.
pub struct PhaseBlock {
    pub id: String,
    pub name: String,
    pub instruction_refs: Vec<String>,
    pub tool_refs: Vec<String>,
    pub steps: Vec<StepBlock>,
}

/// A tool.
pub struct ToolBlock {
    pub id: String,
}

/// An instruction.
pub struct InstructionBlock {
    pub id: String,
    pub prompt: String,
}

/// A connection, with the name of its kind.
pub struct ConnectionBlock {
    pub id: String,
    pub kind_name: String,
}

/// Every block, each beside the reference that resolves to it.
pub struct ResolvedRegistry {
    pub flow_refs: Vec<String>,
    pub flows: Vec<FlowBlock>,
    pub phase_refs: Vec<String>,
    pub phases: Vec<PhaseBlock>,
    pub tool_refs: Vec<String>,
    pub tools: Vec<ToolBlock>,
    pub instruction_refs: Vec<String>,
    pub instructions: Vec<InstructionBlock>,
    pub connection_refs: Vec<String>,
    pub connections: Vec<ConnectionBlock>,
}

/// Where a text stands first in a list.
pub open spec fn text_position(texts: Seq<Seq<char>>, wanted: Seq<char>) -> Option<int>
    decreases texts.len(),
{
    if texts.len() == 0 {
        None
    } else if texts[0] == wanted {
        Some(0)
    } else {
        match text_position(texts.skip(1), wanted) {
            Some(position) => Some(position + 1),
            None => None,
        }
    }
}

/// What it takes for a position to be where a text stands first.
pub proof fn lemma_text_position(texts: Seq<Seq<char>>, wanted: Seq<char>, position: int)
    requires
        0 <= position <= texts.len(),
        forall|k: int| 0 <= k < position ==> #[trigger] texts[k] != wanted,
    ensures
        position < texts.len() && texts[position] == wanted ==> text_position(texts, wanted)
            == Some(position),
        position == texts.len() ==> text_position(texts, wanted) is None,
    decreases position,
{
    if position > 0 {
        let rest = texts.skip(1);
        assert(texts[0] != wanted);
        assert forall|k: int| 0 <= k < position - 1 implies #[trigger] rest[k] != wanted by {
            assert(texts[k + 1] != wanted);
        }
        lemma_text_position(rest, wanted, position - 1);
    }
}

/// A text found in a list stands there.
pub proof fn lemma_text_position_bounds(texts: Seq<Seq<char>>, wanted: Seq<char>)
    ensures
        text_position(texts, wanted) matches Some(position) ==> 0 <= position < texts.len()
            && texts[position] == wanted,
    decreases texts.len(),
{
    if texts.len() > 0 {
        lemma_text_position_bounds(texts.skip(1), wanted);
    }
}

/// Where a text stands first in a list.
pub fn find_text(texts: &Vec<String>, wanted: &str) -> (position: Option<usize>)
    ensures
        match position {
            Some(position) => text_position(text::texts_view(texts@), wanted@) == Some(position as int)
                && position < texts@.len(),
            None => text_position(text::texts_view(texts@), wanted@) is None,
        },
{
    let ghost all = text::texts_view(texts@);
    let mut i: usize = 0;
    while i < texts.len()
        invariant
            i <= texts.len(),
            all == text::texts_view(texts@),
            forall|k: int| 0 <= k < i ==> #[trigger] all[k] != wanted@,
        decreases texts.len() - i,
    {
        assert(all[i as int] == texts@[i as int]@);
        if same_text(texts[i].as_str(), wanted) {
            proof {
                lemma_text_position(all, wanted@, i as int);
            }
            return Some(i);
        }
        i = i + 1;
    }
    proof {
        lemma_text_position(all, wanted@, i as int);
    }
    None
}

impl ResolvedRegistry {
    /// Every block has its reference.
    pub open spec fn wf(self) -> bool {
        &&& self.flow_refs@.len() == self.flows@.len()
        &&& self.phase_refs@.len() == self.phases@.len()
        &&& self.tool_refs@.len() == self.tools@.len()
        &&& self.instruction_refs@.len() == self.instructions@.len()
        &&& self.connection_refs@.len() == self.connections@.len()
    }

    /// Which flow a reference resolves to.
    pub open spec fn flow_at(self, reference: Seq<char>) -> Option<int> {
        text_position(text::texts_view(self.flow_refs@), reference)
    }

    /// Which phase a reference resolves to.
    pub open spec fn phase_at(self, reference: Seq<char>) -> Option<int> {
        text_position(text::texts_view(self.phase_refs@), reference)
    }

    /// Which tool a reference resolves to.
    pub open spec fn tool_at(self, reference: Seq<char>) -> Option<int> {
        text_position(text::texts_view(self.tool_refs@), reference)
    }

    /// Which instruction a reference resolves to.
    pub open spec fn instruction_at(self, reference: Seq<char>) -> Option<int> {
        text_position(text::texts_view(self.instruction_refs@), reference)
    }

    /// Which connection a reference resolves to.
    pub open spec fn connection_at(self, reference: Seq<char>) -> Option<int> {
        text_position(text::texts_view(self.connection_refs@), reference)
    }
}

/// What is wrong with a reference that resolves to nothing.
pub open spec fn missing_failure(
    kind: Seq<char>,
    reference: Seq<char>,
    found: Option<int>,
) -> Option<ErrorModel> {
    if found is Some {
        None
    } else {
        error::protocol_failure("resolved registry missing "@ + kind + " "@ + reference)
    }
}

/// The failure of a reference that resolves to nothing.
pub fn missing_block(kind: &str, reference: &str) -> (error: RuntimeError)
    ensures
        Some(error@) == missing_failure(kind@, reference@, None),
{
    let mut message = join3("resolved registry missing ", kind, " ");
    append_text(&mut message, reference);
    protocol(message.as_str())
}

/// Resolves a reference among those of one kind.
pub fn resolve(references: &Vec<String>, kind: &str, reference: &str) -> (result: Result<
    usize,
    RuntimeError,
>)
    ensures
        error::failure(result) == missing_failure(
            kind@,
            reference@,
            text_position(text::texts_view(references@), reference@),
        ),
        result matches Ok(position) ==> text_position(text::texts_view(references@), reference@) == Some(
            position as int,
        ) && position < references@.len(),
{
    match find_text(references, reference) {
        Some(position) => Ok(position),
        None => Err(missing_block(kind, reference)),
    }
}

/// The first reference of a list that resolves to nothing.
pub open spec fn first_missing(
    kind: Seq<char>,
    references: Seq<Seq<char>>,
    known: Seq<Seq<char>>,
) -> Option<ErrorModel>
    decreases references.len(),
{
    if references.len() == 0 {
        None
    } else if text_position(known, references[0]) is None {
        missing_failure(kind, references[0], None)
    } else {
        first_missing(kind, references.skip(1), known)
    }
}

/// Resolves every reference of a list, in order.
pub fn resolve_all(known: &Vec<String>, kind: &str, references: &Vec<String>) -> (result: Result<
    Vec<usize>,
    RuntimeError,
>)
    ensures
        error::failure(result) == first_missing(kind@, text::texts_view(references@), text::texts_view(known@)),
        result matches Ok(positions) ==> {
            &&& positions@.len() == references@.len()
            &&& forall|k: int|
                0 <= k < references@.len() ==> (#[trigger] positions@[k]) < known@.len()
                    && text_position(text::texts_view(known@), references@[k]@) == Some(
                    positions@[k] as int,
                )
        },
{
    let mut positions: Vec<usize> = Vec::new();
    let ghost all = text::texts_view(references@);
    let ghost names = text::texts_view(known@);
    let mut i: usize = 0;
    assert(all.skip(0) =~= all);
    while i < references.len()
        invariant
            i <= references.len(),
            positions@.len() == i,
            all == text::texts_view(references@),
            names == text::texts_view(known@),
            first_missing(kind@, all, names) == first_missing(kind@, all.skip(i as int), names),
            forall|k: int|
                0 <= k < i ==> (#[trigger] positions@[k]) < known@.len() && text_position(
                    names,
                    references@[k]@,
                ) == Some(positions@[k] as int),
        decreases references.len() - i,
    {
        assert(all.skip(i as int)[0] == references@[i as int]@);
        let position = resolve(known, kind, references[i].as_str())?;
        assert(all.skip(i as int).skip(1) =~= all.skip(i + 1));
        positions.push(position);
        i = i + 1;
    }
    Ok(positions)
}

/// The tools that a phase may use.
pub struct PhaseScope {
    pub phase_id: String,
    pub tool_ids: Vec<String>,
}

/// What the policy says of a tool's command.
pub struct CommandPolicy {
    pub tool_id: String,
}

/// What a compiled policy is meant for.
#[derive(Clone, Copy, Debug, PartialEq, Eq, Structural)]
pub enum PolicyTarget {
    MacosSeatbelt,
    LinuxLandlockSeccomp,
}

/// How protected paths are compared.
#[derive(Clone, Copy, Debug, PartialEq, Eq, Structural)]
pub enum ProtectedPathMatchMode {
    CaseInsensitive,
    CaseSensitive,
}

/// The policy that tools run under.
pub struct PolicyArtifact {
    pub target: PolicyTarget,
    pub phase_scope: Vec<PhaseScope>,
    pub commands: Vec<CommandPolicy>,
}

/// The target that this machine runs.
pub fn runtime_policy_target(macos: bool) -> (target: PolicyTarget)
    ensures
        target == (if macos {
            PolicyTarget::MacosSeatbelt
        } else {
            PolicyTarget::LinuxLandlockSeccomp
        }),
{
    if macos {
        PolicyTarget::MacosSeatbelt
    } else {
        PolicyTarget::LinuxLandlockSeccomp
    }
}

/// How protected paths are compared on this machine; elsewhere than on Windows that
/// is the target's own way.
pub fn runtime_protected_path_match_mode(windows: bool, target_mode: ProtectedPathMatchMode) -> (mode:
    ProtectedPathMatchMode)
    ensures
        mode == (if windows {
            ProtectedPathMatchMode::CaseInsensitive
        } else {
            target_mode
        }),
{
    if windows {
        ProtectedPathMatchMode::CaseInsensitive
    } else {
        target_mode
    }
}

/// The phases that a policy names, in order.
pub open spec fn scope_phases(policy: PolicyArtifact) -> Seq<Seq<char>> {
    policy.phase_scope@.map_values(|scope: PhaseScope| scope.phase_id@)
}

/// The tools whose commands a policy holds, in order.
pub open spec fn command_tools(policy: PolicyArtifact) -> Seq<Seq<char>> {
    policy.commands@.map_values(|command: CommandPolicy| command.tool_id@)
}

/// Whether the first scope of a phase names a tool.
pub open spec fn in_scope(policy: PolicyArtifact, phase_id: Seq<char>, tool_id: Seq<char>) -> bool {
    match text_position(scope_phases(policy), phase_id) {
        Some(position) => text_position(
            text::texts_view(policy.phase_scope@[position].tool_ids@),
            tool_id,
        ) is Some,
        None => false,
    }
}

/// Which command a tool has.
pub open spec fn command_at(policy: PolicyArtifact, tool_id: Seq<char>) -> Option<int> {
    text_position(command_tools(policy), tool_id)
}

/// What is wrong with using a tool in a phase.
pub open spec fn command_failure(
    policy: PolicyArtifact,
    phase_id: Seq<char>,
    tool_id: Seq<char>,
) -> Option<ErrorModel> {
    if !in_scope(policy, phase_id, tool_id) {
        error::protocol_failure("tool "@ + tool_id + " is not available in phase "@ + phase_id)
    } else if command_at(policy, tool_id) is None {
        error::protocol_failure("runtime policy missing command for tool "@ + tool_id)
    } else {
        None
    }
}

fn tool_in_scope(policy: &PolicyArtifact, phase_id: &str, tool_id: &str) -> (scoped: bool)
    ensures
        scoped == in_scope(*policy, phase_id@, tool_id@),
{
    let ghost phases = scope_phases(*policy);
    let mut i: usize = 0;
    while i < policy.phase_scope.len()
        invariant
            i <= policy.phase_scope.len(),
            phases == scope_phases(*policy),
            forall|k: int| 0 <= k < i ==> #[trigger] phases[k] != phase_id@,
        decreases policy.phase_scope.len() - i,
    {
        assert(phases[i as int] == policy.phase_scope@[i as int].phase_id@);
        if same_text(policy.phase_scope[i].phase_id.as_str(), phase_id) {
            proof {
                lemma_text_position(phases, phase_id@, i as int);
            }
            return find_text(&policy.phase_scope[i].tool_ids, tool_id).is_some();
        }
        i = i + 1;
    }
    proof {
        lemma_text_position(phases, phase_id@, i as int);
    }
    false
}

fn find_command(policy: &PolicyArtifact, tool_id: &str) -> (position: Option<usize>)
    ensures
        match position {
            Some(position) => command_at(*policy, tool_id@) == Some(position as int) && position
                < policy.commands@.len(),
            None => command_at(*policy, tool_id@) is None,
        },
{
    let ghost tools = command_tools(*policy);
    let mut i: usize = 0;
    while i < policy.commands.len()
        invariant
            i <= policy.commands.len(),
            tools == command_tools(*policy),
            forall|k: int| 0 <= k < i ==> #[trigger] tools[k] != tool_id@,
        decreases policy.commands.len() - i,
    {
        assert(tools[i as int] == policy.commands@[i as int].tool_id@);
        if same_text(policy.commands[i].tool_id.as_str(), tool_id) {
            proof {
                lemma_text_position(tools, tool_id@, i as int);
            }
            return Some(i);
        }
        i = i + 1;
    }
    proof {
        lemma_text_position(tools, tool_id@, i as int);
    }
    None
}

/// The command of a tool that a phase uses.
pub fn command_policy_for_phase<'a>(
    policy: &'a PolicyArtifact,
    phase_id: &str,
    tool: &ToolBlock,
) -> (result: Result<&'a CommandPolicy, RuntimeError>)
    ensures
        error::failure(result) == command_failure(*policy, phase_id@, tool.id@),
        result matches Ok(command) ==> {
            &&& command_at(*policy, tool.id@) is Some
            &&& *command == policy.commands@[command_at(*policy, tool.id@)->0]
            &&& command.tool_id@ == tool.id@
        },
{
    if !tool_in_scope(policy, phase_id, tool.id.as_str()) {
        let mut message = join3("tool ", tool.id.as_str(), " is not available in phase ");
        append_text(&mut message, phase_id);
        return Err(protocol(message.as_str()));
    }
    match find_command(policy, tool.id.as_str()) {
        Some(position) => {
            proof {
                lemma_text_position_bounds(command_tools(*policy), tool.id@);
            }
            Ok(&policy.commands[position])
        },
        None => {
            let message = join2("runtime policy missing command for tool ", tool.id.as_str());
            Err(protocol(message.as_str()))
        },
    }
}

/// What an event says of a step.
pub struct StepPayload {
    pub phase_id: String,
    pub step_id: String,
    pub step_name: String,
    /// Empty where the step has no connections; the event then says nothing of them.
    pub connection_ids: Vec<String>,
    pub connection_kinds: Vec<String>,
}

/// What an event says of a step, by its contents.
pub struct StepModel {
    pub phase_id: Seq<char>,
    pub step_id: Seq<char>,
    pub step_name: Seq<char>,
    pub connection_ids: Seq<Seq<char>>,
    pub connection_kinds: Seq<Seq<char>>,
}

impl View for StepPayload {
    type V = StepModel;

    open spec fn view(&self) -> StepModel {
        StepModel {
            phase_id: self.phase_id@,
            step_id: self.step_id@,
            step_name: self.step_name@,
            connection_ids: text::texts_view(self.connection_ids@),
            connection_kinds: text::texts_view(self.connection_kinds@),
        }
    }
}

/// What is wrong with the connections of a step.
pub open spec fn step_failure(registry: ResolvedRegistry, step: StepBlock) -> Option<ErrorModel> {
    first_missing(
        "connection"@,
        text::texts_view(step.connection_refs@),
        text::texts_view(registry.connection_refs@),
    )
}

/// What an event says of a step whose connections are all known.
pub open spec fn step_model(
    registry: ResolvedRegistry,
    phase: PhaseBlock,
    step: StepBlock,
) -> StepModel {
    StepModel {
        phase_id: phase.id@,
        step_id: step.id@,
        step_name: step.name@,
        connection_ids: step.connection_refs@.map_values(
            |reference: String|
                registry.connections@[registry.connection_at(reference@)->0].id@,
        ),
        connection_kinds: step.connection_refs@.map_values(
            |reference: String|
                registry.connections@[registry.connection_at(reference@)->0].kind_name@,
        ),
    }
}

/// What an event says of a step.
pub fn step_payload(registry: &ResolvedRegistry, phase: &PhaseBlock, step: &StepBlock) -> (result:
    Result<StepPayload, RuntimeError>)
    requires
        registry.wf(),
    ensures
        error::failure(result) == step_failure(*registry, *step),
        result matches Ok(payload) ==> payload@ == step_model(*registry, *phase, *step),
{
    let positions = resolve_all(&registry.connection_refs, "connection", &step.connection_refs)?;
    let mut connection_ids: Vec<String> = Vec::new();
    let mut connection_kinds: Vec<String> = Vec::new();
    let ghost model = step_model(*registry, *phase, *step);
    let mut i: usize = 0;
    while i < positions.len()
        invariant
            i <= positions.len(),
            positions@.len() == step.connection_refs@.len(),
            registry.wf(),
            model == step_model(*registry, *phase, *step),
            forall|k: int|
                0 <= k < positions@.len() ==> (#[trigger] positions@[k])
                    < registry.connection_refs@.len() && registry.connection_at(
                    step.connection_refs@[k]@,
                ) == Some(positions@[k] as int),
            connection_ids@.len() == i,
            connection_kinds@.len() == i,
            forall|k: int|
                0 <= k < i ==> (#[trigger] connection_ids@[k])@ == model.connection_ids[k],
            forall|k: int|
                0 <= k < i ==> (#[trigger] connection_kinds@[k])@ == model.connection_kinds[k],
        decreases positions.len() - i,
    {
        let position: usize = positions[i];
        let connection = &registry.connections[position];
        connection_ids.push(connection.id.clone());
        connection_kinds.push(connection.kind_name.clone());
        i = i + 1;
    }
    let payload = StepPayload {
        phase_id: phase.id.clone(),
        step_id: step.id.clone(),
        step_name: step.name.clone(),
        connection_ids,
        connection_kinds,
    };
    assert(payload@.connection_ids =~= model.connection_ids);
    assert(payload@.connection_kinds =~= model.connection_kinds);
    Ok(payload)
}

/// What an event says of a phase.
pub struct PhasePayload {
    pub instruction_ids: Vec<String>,
    pub phase_id: String,
    pub phase_name: String,
    pub tool_ids: Vec<String>,
}

/// What is wrong with the names that a phase uses.
pub open spec fn phase_failure(registry: ResolvedRegistry, phase: PhaseBlock) -> Option<ErrorModel> {
    let instructions = first_missing(
        "instruction"@,
        text::texts_view(phase.instruction_refs@),
        text::texts_view(registry.instruction_refs@),
    );
    if instructions is Some {
        instructions
    } else {
        first_missing("tool"@, text::texts_view(phase.tool_refs@), text::texts_view(registry.tool_refs@))
    }
}

/// What an event says of a phase.
pub fn phase_payload(registry: &ResolvedRegistry, phase: &PhaseBlock) -> (result: Result<
    PhasePayload,
    RuntimeError,
>)
    requires
        registry.wf(),
    ensures
        error::failure(result) == phase_failure(*registry, *phase),
        result matches Ok(payload) ==> {
            &&& payload.phase_id@ == phase.id@
            &&& payload.phase_name@ == phase.name@
            &&& text::texts_view(payload.instruction_ids@) == phase.instruction_refs@.map_values(
                |reference: String|
                    registry.instructions@[registry.instruction_at(reference@)->0].id@,
            )
            &&& text::texts_view(payload.tool_ids@) == phase.tool_refs@.map_values(
                |reference: String| registry.tools@[registry.tool_at(reference@)->0].id@,
            )
        },
{
    let instructions = resolve_all(
        &registry.instruction_refs,
        "instruction",
        &phase.instruction_refs,
    )?;
    let tools = resolve_all(&registry.tool_refs, "tool", &phase.tool_refs)?;
    let mut instruction_ids: Vec<String> = Vec::new();
    let mut i: usize = 0;
    while i < instructions.len()
        invariant
            i <= instructions.len(),
            instructions@.len() == phase.instruction_refs@.len(),
            registry.wf(),
            forall|k: int|
                0 <= k < instructions@.len() ==> (#[trigger] instructions@[k])
                    < registry.instruction_refs@.len() && registry.instruction_at(
                    phase.instruction_refs@[k]@,
                ) == Some(instructions@[k] as int),
            instruction_ids@.len() == i,
            forall|k: int|
                0 <= k < i ==> (#[trigger] instruction_ids@[k])@
                    == registry.instructions@[registry.instruction_at(
                    phase.instruction_refs@[k]@,
                )->0].id@,
        decreases instructions.len() - i,
    {
        let position: usize = instructions[i];
        instruction_ids.push(registry.instructions[position].id.clone());
        i = i + 1;
    }
    let mut tool_ids: Vec<String> = Vec::new();
    let mut j: usize = 0;
    while j < tools.len()
        invariant
            j <= tools.len(),
            tools@.len() == phase.tool_refs@.len(),
            registry.wf(),
            forall|k: int|
                0 <= k < tools@.len() ==> (#[trigger] tools@[k]) < registry.tool_refs@.len()
                    && registry.tool_at(phase.tool_refs@[k]@) == Some(tools@[k] as int),
            tool_ids@.len() == j,
            forall|k: int|
                0 <= k < j ==> (#[trigger] tool_ids@[k])@ == registry.tools@[registry.tool_at(
                    phase.tool_refs@[k]@,
                )->0].id@,
        decreases tools.len() - j,
    {
        let position: usize = tools[j];
        tool_ids.push(registry.tools[position].id.clone());
        j = j + 1;
    }
    assert(text::texts_view(instruction_ids@) =~= phase.instruction_refs@.map_values(
        |reference: String| registry.instructions@[registry.instruction_at(reference@)->0].id@,
    ));
    assert(text::texts_view(tool_ids@) =~= phase.tool_refs@.map_values(
        |reference: String| registry.tools@[registry.tool_at(reference@)->0].id@,
    ));
    Ok(
        PhasePayload {
            instruction_ids,
            phase_id: phase.id.clone(),
            phase_name: phase.name.clone(),
            tool_ids,
        },
    )
}

/// Whether a phase speaks to the model: it has instructions.
pub fn phase_uses_stub_model(phase: &PhaseBlock) -> (uses: bool)
    ensures
        uses == (phase.instruction_refs@.len() > 0),
{
    phase.instruction_refs.len() > 0
}

/// A character with an ASCII capital made small.
pub open spec fn lowered(c: char) -> char {
    if 'A' <= c <= 'Z' {
        (c as u32 + 32) as char
    } else {
        c
    }
}

/// A text with its ASCII capitals made small.
pub open spec fn lowered_text(content: Seq<char>) -> Seq<char> {
    content.map_values(|c: char| lowered(c))
}

/// Whether a word stands at a place of a text.
pub open spec fn stands_at(content: Seq<char>, word: Seq<char>, start: int) -> bool {
    0 <= start <= content.len() - word.len() && content.subrange(start, start + word.len()) == word
}

/// Whether a text holds a word, ASCII capitals counted as small letters.
pub open spec fn mentions(content: Seq<char>, word: Seq<char>) -> bool {
    exists|start: int| #[trigger] stands_at(lowered_text(content), word, start)
}

fn lower_char(c: char) -> (lower: char)
    ensures
        lower == lowered(c),
{
    if 'A' <= c && c <= 'Z' {
        ((c as u8) + 32) as char
    } else {
        c
    }
}

fn mentions_word(content: &str, word: &str) -> (found: bool)
    ensures
        found == mentions(content@, word@),
{
    let chars = chars_of(content);
    let wanted = chars_of(word);
    let ghost lower = lowered_text(content@);
    if wanted.len() > chars.len() {
        return false;
    }
    let last: usize = chars.len() - wanted.len();
    let mut start: usize = 0;
    while start <= last
        invariant
            start <= last + 1,
            last == chars.len() - wanted.len(),
            wanted.len() <= chars.len(),
            chars@ == content@,
            wanted@ == word@,
            lower == lowered_text(content@),
            forall|k: int|
                0 <= k < start ==> !#[trigger] stands_at(lower, word@, k),
        decreases last + 1 - start,
    {
        let mut i: usize = 0;
        let mut same = true;
        while i < wanted.len() && same
            invariant
                i <= wanted.len(),
                start <= last,
                last == chars.len() - wanted.len(),
                wanted.len() <= chars.len(),
                chars@ == content@,
                wanted@ == word@,
                lower == lowered_text(content@),
                same ==> forall|k: int| 0 <= k < i ==> #[trigger] lower[start + k] == word@[k],
                !same ==> i < wanted.len() && lower[start + i] != word@[i as int],
            decreases wanted.len() - i + (if same { 1int } else { 0int }),
        {
            let c = lower_char(chars[start + i]);
            if c != wanted[i] {
                same = false;
            } else {
                i = i + 1;
            }
        }
        let ghost here = lower.subrange(start as int, start + word@.len());
        if same {
            proof {
                assert forall|k: int| 0 <= k < word@.len() implies here[k] == word@[k] by {
                    assert(lower[start + k] == word@[k]);
                }
                assert(here =~= word@);
                assert(stands_at(lower, word@, start as int));
            }
            return true;
        }
        assert(here[i as int] != word@[i as int]);
        start = start + 1;
    }
    false
}

/// What is wrong with asking the stub model.
pub open spec fn stub_failure(
    registry: ResolvedRegistry,
    instruction_refs: Seq<Seq<char>>,
) -> Option<ErrorModel>
    decreases instruction_refs.len(),
{
    if instruction_refs.len() == 0 {
        None
    } else {
        match registry.instruction_at(instruction_refs[0]) {
            None => missing_failure("instruction"@, instruction_refs[0], None),
            Some(position) => if mentions(registry.instructions@[position].prompt@, "smoke"@) {
                None
            } else {
                stub_failure(registry, instruction_refs.skip(1))
            },
        }
    }
}

/// Whether an instruction before the first unknown one mentions smoke.
pub open spec fn asks_for_smoke(registry: ResolvedRegistry, instruction_refs: Seq<Seq<char>>) -> bool
    decreases instruction_refs.len(),
{
    if instruction_refs.len() == 0 {
        false
    } else {
        match registry.instruction_at(instruction_refs[0]) {
            None => false,
            Some(position) => mentions(registry.instructions@[position].prompt@, "smoke"@)
                || asks_for_smoke(registry, instruction_refs.skip(1)),
        }
    }
}

/// What the stub model answers.
pub fn stub_message_content(
    registry: &ResolvedRegistry,
    phase: &PhaseBlock,
    provider_context: &[u8],
) -> (result: Result<&'static str, RuntimeError>)
    requires
        registry.wf(),
    ensures
        error::failure(result) == (if provider_context@.len() == 0 {
            error::protocol_failure("stub model received empty compiled context"@)
        } else {
            stub_failure(*registry, text::texts_view(phase.instruction_refs@))
        }),
        result matches Ok(content) ==> content@ == (if asks_for_smoke(
            *registry,
            text::texts_view(phase.instruction_refs@),
        ) {
            "smoke"@
        } else {
            "hello"@
        }),
{
    if provider_context.len() == 0 {
        return Err(protocol("stub model received empty compiled context"));
    }
    let ghost all = text::texts_view(phase.instruction_refs@);
    let mut i: usize = 0;
    assert(all.skip(0) =~= all);
    while i < phase.instruction_refs.len()
        invariant
            i <= phase.instruction_refs.len(),
            registry.wf(),
            all == text::texts_view(phase.instruction_refs@),
            stub_failure(*registry, all) == stub_failure(*registry, all.skip(i as int)),
            asks_for_smoke(*registry, all) == asks_for_smoke(*registry, all.skip(i as int)),
            provider_context@.len() > 0,
        decreases phase.instruction_refs.len() - i,
    {
        assert(all.skip(i as int)[0] == phase.instruction_refs@[i as int]@);
        let position = resolve(
            &registry.instruction_refs,
            "instruction",
            phase.instruction_refs[i].as_str(),
        )?;
        if mentions_word(registry.instructions[position].prompt.as_str(), "smoke") {
            return Ok("smoke");
        }
        assert(all.skip(i as int).skip(1) =~= all.skip(i + 1));
        i = i + 1;
    }
    Ok("hello")
}

/// A text is found at the first place at which it stands, and not found exactly where it
/// stands nowhere.
pub proof fn law_text_is_found_at_its_first_place(texts: Seq<Seq<char>>, wanted: Seq<char>)
    ensures
        match text_position(texts, wanted) {
            Some(position) => {
                &&& 0 <= position < texts.len()
                &&& texts[position] == wanted
                &&& forall|k: int| 0 <= k < position ==> #[trigger] texts[k] != wanted
            },
            None => forall|k: int| 0 <= k < texts.len() ==> #[trigger] texts[k] != wanted,
        },
    decreases texts.len(),
{
    if texts.len() > 0 && texts[0] != wanted {
        let rest = texts.skip(1);
        law_text_is_found_at_its_first_place(rest, wanted);
        match text_position(rest, wanted) {
            Some(position) => {
                assert(texts[position + 1] == rest[position]);
                assert forall|k: int| 0 <= k < position + 1 implies #[trigger] texts[k]
                    != wanted by {
                    if k > 0 {
                        assert(rest[k - 1] == texts[k]);
                    }
                }
            },
            None => {
                assert forall|k: int| 0 <= k < texts.len() implies #[trigger] texts[k]
                    != wanted by {
                    if k > 0 {
                        assert(rest[k - 1] == texts[k]);
                    }
                }
            },
        }
    }
}

/// References are resolved exactly where every one of them is known; otherwise the first that
/// is not known is named.
pub proof fn law_first_unknown_reference_is_named(
    kind: Seq<char>,
    references: Seq<Seq<char>>,
    known: Seq<Seq<char>>,
)
    ensures
        first_missing(kind, references, known) is None <==> forall|k: int|
            0 <= k < references.len() ==> known.contains(#[trigger] references[k]),
        first_missing(kind, references, known) is Some ==> exists|k: int|
            #![trigger references[k]]
            0 <= k < references.len() && !known.contains(references[k]) && (forall|j: int|
                0 <= j < k ==> known.contains(#[trigger] references[j])) && first_missing(
                kind,
                references,
                known,
            ) == error::protocol_failure(
                "resolved registry missing "@ + kind + " "@ + references[k],
            ),
    decreases references.len(),
{
    if references.len() > 0 {
        law_text_is_found_at_its_first_place(known, references[0]);
        if text_position(known, references[0]) is Some {
            assert(known[text_position(known, references[0])->0] == references[0]);
            let rest = references.skip(1);
            law_first_unknown_reference_is_named(kind, rest, known);
            assert forall|k: int| 0 <= k < rest.len() implies rest[k] == #[trigger] references[k
                + 1] by {}
            if first_missing(kind, rest, known) is None {
                assert forall|k: int| 0 <= k < references.len() implies known.contains(
                    #[trigger] references[k],
                ) by {
                    if k > 0 {
                        assert(rest[k - 1] == references[k]);
                    }
                }
            } else {
                let k = choose|k: int|
                    #![trigger rest[k]]
                    0 <= k < rest.len() && !known.contains(rest[k]) && (forall|j: int|
                        0 <= j < k ==> known.contains(#[trigger] rest[j])) && first_missing(
                        kind,
                        rest,
                        known,
                    ) == error::protocol_failure(
                        "resolved registry missing "@ + kind + " "@ + rest[k],
                    );
                assert(references[k + 1] == rest[k]);
                assert forall|j: int| 0 <= j < k + 1 implies known.contains(
                    #[trigger] references[j],
                ) by {
                    if j > 0 {
                        assert(rest[j - 1] == references[j]);
                    }
                }
            }
        } else {
            assert(!known.contains(references[0]));
        }
    }
}

/// A tool may be used in a phase exactly where the policy lists it for the phase and has a
/// command for it.
pub proof fn law_policy_lets_listed_tools_run(
    policy: PolicyArtifact,
    phase_id: Seq<char>,
    tool_id: Seq<char>,
)
    ensures
        command_failure(policy, phase_id, tool_id) is None <==> {
            &&& exists|p: int|
                #![trigger policy.phase_scope@[p]]
                {
                    &&& 0 <= p < policy.phase_scope@.len()
                    &&& policy.phase_scope@[p].phase_id@ == phase_id
                    &&& forall|j: int|
                        0 <= j < p ==> (#[trigger] policy.phase_scope@[j]).phase_id@ != phase_id
                    &&& exists|t: int|
                        0 <= t < policy.phase_scope@[p].tool_ids@.len() && (
                        #[trigger] policy.phase_scope@[p].tool_ids@[t])@ == tool_id
                }
            &&& exists|c: int|
                0 <= c < policy.commands@.len() && (#[trigger] policy.commands@[c]).tool_id@
                    == tool_id
        },
        command_at(policy, tool_id) is Some ==> {
            let c = command_at(policy, tool_id)->0;
            &&& 0 <= c < policy.commands@.len()
            &&& policy.commands@[c].tool_id@ == tool_id
            &&& forall|j: int|
                0 <= j < c ==> (#[trigger] policy.commands@[j]).tool_id@ != tool_id
        },
{
    let (scopes, commands) = (scope_phases(policy), command_tools(policy));
    law_text_is_found_at_its_first_place(scopes, phase_id);
    law_text_is_found_at_its_first_place(commands, tool_id);
    assert forall|j: int| 0 <= j < scopes.len() implies #[trigger] scopes[j]
        == policy.phase_scope@[j].phase_id@ by {}
    assert forall|j: int| 0 <= j < commands.len() implies #[trigger] commands[j]
        == policy.commands@[j].tool_id@ by {}
    assert forall|j: int| 0 <= j < policy.phase_scope@.len() implies (
    #[trigger] policy.phase_scope@[j]).phase_id@ == scopes[j] by {}
    assert forall|j: int| 0 <= j < policy.commands@.len() implies (
    #[trigger] policy.commands@[j]).tool_id@ == commands[j] by {}
    if let Some(p) = text_position(scopes, phase_id) {
        let tools = text::texts_view(policy.phase_scope@[p].tool_ids@);
        law_text_is_found_at_its_first_place(tools, tool_id);
        assert forall|t: int| 0 <= t < tools.len() implies #[trigger] tools[t]
            == policy.phase_scope@[p].tool_ids@[t]@ by {}
        assert forall|t: int| 0 <= t < tools.len() implies (
        #[trigger] policy.phase_scope@[p].tool_ids@[t])@ == tools[t] by {}
        assert(policy.phase_scope@[p].phase_id@ == phase_id);
        if text_position(tools, tool_id) is Some {
            let t = text_position(tools, tool_id)->0;
            assert(policy.phase_scope@[p].tool_ids@[t]@ == tool_id);
        }
        if exists|q: int|
            #![trigger policy.phase_scope@[q]]
            {
                &&& 0 <= q < policy.phase_scope@.len()
                &&& policy.phase_scope@[q].phase_id@ == phase_id
                &&& forall|j: int|
                    0 <= j < q ==> (#[trigger] policy.phase_scope@[j]).phase_id@ != phase_id
                &&& exists|t: int|
                    0 <= t < policy.phase_scope@[q].tool_ids@.len() && (
                    #[trigger] policy.phase_scope@[q].tool_ids@[t])@ == tool_id
            } {
            let q = choose|q: int|
                #![trigger policy.phase_scope@[q]]
                {
                    &&& 0 <= q < policy.phase_scope@.len()
                    &&& policy.phase_scope@[q].phase_id@ == phase_id
                    &&& forall|j: int|
                        0 <= j < q ==> (#[trigger] policy.phase_scope@[j]).phase_id@ != phase_id
                    &&& exists|t: int|
                        0 <= t < policy.phase_scope@[q].tool_ids@.len() && (
                        #[trigger] policy.phase_scope@[q].tool_ids@[t])@ == tool_id
                };
            assert(q == p) by {
                if q < p {
                    assert(scopes[q] == phase_id);
                }
                if p < q {
                    assert(policy.phase_scope@[p].phase_id@ != phase_id);
                }
            }
            let t = choose|t: int|
                0 <= t < policy.phase_scope@[q].tool_ids@.len() && (
                #[trigger] policy.phase_scope@[q].tool_ids@[t])@ == tool_id;
            assert(tools[t] == tool_id);
        }
    }
    if let Some(c) = text_position(commands, tool_id) {
        assert(policy.commands@[c].tool_id@ == tool_id);
    }
}

/// A step names the identifiers and the kinds of its connections, one for each reference and
/// in their order, each that of the connection which the reference names.
pub proof fn law_step_names_its_connections(
    registry: ResolvedRegistry,
    phase: PhaseBlock,
    step: StepBlock,
    k: int,
)
    requires
        registry.wf(),
        step_failure(registry, step) is None,
        0 <= k < step.connection_refs@.len(),
    ensures
        ({
            let model = step_model(registry, phase, step);
            &&& model.phase_id == phase.id@
            &&& model.step_id == step.id@
            &&& model.step_name == step.name@
            &&& model.connection_ids.len() == step.connection_refs@.len()
            &&& model.connection_kinds.len() == step.connection_refs@.len()
            &&& exists|j: int|
                #![trigger registry.connections@[j]]
                {
                    &&& 0 <= j < registry.connections@.len()
                    &&& registry.connection_refs@[j]@ == step.connection_refs@[k]@
                    &&& model.connection_ids[k] == registry.connections@[j].id@
                    &&& model.connection_kinds[k] == registry.connections@[j].kind_name@
                }
        }),
{
    let known = text::texts_view(registry.connection_refs@);
    let wanted = text::texts_view(step.connection_refs@);
    law_first_unknown_reference_is_named("connection"@, wanted, known);
    assert(known.contains(wanted[k]));
    law_text_is_found_at_its_first_place(known, wanted[k]);
    let j = registry.connection_at(step.connection_refs@[k]@)->0;
    assert(known[j] == registry.connection_refs@[j]@);
    assert(registry.connections@[j].id@ == step_model(registry, phase, step).connection_ids[k]);
}

/// Whether the letters of a word stand in turn at a place, each as a small letter or as a
/// capital one.
pub open spec fn spelled_at(content: Seq<char>, word: Seq<char>, start: int) -> bool {
    &&& 0 <= start <= content.len() - word.len()
    &&& forall|i: int|
        0 <= i < word.len() ==> {
            ||| content[start + i] == #[trigger] word[i] && !('A' <= content[start + i] <= 'Z')
            ||| 'A' <= content[start + i] <= 'Z' && content[start + i] as int + 32
                == word[i] as int
        }
}

/// A word is mentioned exactly where it is spelled somewhere, in small letters or capital
/// ones.
pub proof fn law_words_are_mentioned_in_any_case(content: Seq<char>, word: Seq<char>)
    ensures
        mentions(content, word) <==> exists|start: int| spelled_at(content, word, start),
{
    let low = lowered_text(content);
    assert(low.len() == content.len());
    if mentions(content, word) {
        let start = choose|start: int| #[trigger] stands_at(low, word, start);
        let there = low.subrange(start, start + word.len());
        assert forall|i: int| 0 <= i < word.len() implies {
            ||| content[start + i] == #[trigger] word[i] && !('A' <= content[start + i] <= 'Z')
            ||| 'A' <= content[start + i] <= 'Z' && content[start + i] as int + 32
                == word[i] as int
        } by {
            assert(there[i] == low[start + i]);
            assert(low[start + i] == lowered(content[start + i]));
        }
        assert(spelled_at(content, word, start));
    }
    if exists|start: int| spelled_at(content, word, start) {
        let start = choose|start: int| spelled_at(content, word, start);
        let there = low.subrange(start, start + word.len());
        assert forall|i: int| 0 <= i < word.len() implies there[i] == #[trigger] word[i] by {
            assert(there[i] == low[start + i]);
            let letter = content[start + i];
            assert(low[start + i] == lowered(letter));
            if 'A' <= letter <= 'Z' {
                assert(letter as int + 32 == word[i] as int);
                assert(lowered(letter) as int == word[i] as int);
            }
        }
        assert(there =~= word);
        assert(stands_at(low, word, start));
    }
}

/// Whether an instruction is known whose prompt asks for smoke.
pub open spec fn asking(registry: ResolvedRegistry, reference: Seq<char>) -> bool {
    exists|j: int|
        #![trigger registry.instructions@[j]]
        0 <= j < registry.instructions@.len() && registry.instruction_refs@[j]@ == reference && (
        forall|i: int|
            0 <= i < j ==> (#[trigger] registry.instruction_refs@[i])@ != reference) && mentions(
            registry.instructions@[j].prompt@,
            "smoke"@,
        )
}

proof fn lemma_asking(registry: ResolvedRegistry, reference: Seq<char>)
    requires
        registry.wf(),
    ensures
        asking(registry, reference) <==> registry.instruction_at(reference) is Some && mentions(
            registry.instructions@[registry.instruction_at(reference)->0].prompt@,
            "smoke"@,
        ),
        registry.instruction_at(reference) is Some <==> exists|j: int|
            0 <= j < registry.instruction_refs@.len() && (
            #[trigger] registry.instruction_refs@[j])@ == reference,
{
    let known = text::texts_view(registry.instruction_refs@);
    law_text_is_found_at_its_first_place(known, reference);
    assert forall|i: int| 0 <= i < known.len() implies #[trigger] known[i]
        == registry.instruction_refs@[i]@ by {}
    assert forall|i: int| 0 <= i < known.len() implies (#[trigger] registry.instruction_refs@[i])@
        == known[i] by {}
    if let Some(p) = registry.instruction_at(reference) {
        assert(registry.instruction_refs@[p]@ == reference);
        assert(registry.instructions@[p] == registry.instructions@[p]);
        if asking(registry, reference) {
            let j = choose|j: int|
                #![trigger registry.instructions@[j]]
                0 <= j < registry.instructions@.len() && registry.instruction_refs@[j]@
                    == reference && (forall|i: int|
                    0 <= i < j ==> (#[trigger] registry.instruction_refs@[i])@ != reference)
                    && mentions(registry.instructions@[j].prompt@, "smoke"@);
            assert(j == p) by {
                if j < p {
                    assert(known[j] == reference);
                }
                if p < j {
                    assert(registry.instruction_refs@[p]@ != reference);
                }
            }
        }
    }
}

/// The stub model answers that it smoked exactly where an instruction of the phase asks for
/// smoke and all those before it are known. It fails exactly where an instruction is not known
/// and none before it asks for smoke.
pub proof fn law_stub_answers_what_is_asked(
    registry: ResolvedRegistry,
    instruction_refs: Seq<Seq<char>>,
)
    requires
        registry.wf(),
    ensures
        asks_for_smoke(registry, instruction_refs) <==> exists|k: int|
            #![trigger instruction_refs[k]]
            0 <= k < instruction_refs.len() && asking(registry, instruction_refs[k]) && forall|
                j: int,
            |
                0 <= j < k ==> registry.instruction_at(#[trigger] instruction_refs[j]) is Some,
        stub_failure(registry, instruction_refs) is Some <==> exists|k: int|
            #![trigger instruction_refs[k]]
            0 <= k < instruction_refs.len() && registry.instruction_at(instruction_refs[k]) is None
                && forall|j: int|
                0 <= j < k ==> !asking(registry, #[trigger] instruction_refs[j]),
    decreases instruction_refs.len(),
{
    if instruction_refs.len() > 0 {
        let first = instruction_refs[0];
        let rest = instruction_refs.skip(1);
        lemma_asking(registry, first);
        law_stub_answers_what_is_asked(registry, rest);
        assert forall|k: int| 0 <= k < rest.len() implies #[trigger] rest[k]
            == instruction_refs[k + 1] by {}
        if asks_for_smoke(registry, instruction_refs) && !asking(registry, first) {
            let k = choose|k: int|
                #![trigger rest[k]]
                0 <= k < rest.len() && asking(registry, rest[k]) && forall|j: int|
                    0 <= j < k ==> registry.instruction_at(#[trigger] rest[j]) is Some;
            assert(instruction_refs[k + 1] == rest[k]);
            assert forall|j: int| 0 <= j < k + 1 implies registry.instruction_at(
                #[trigger] instruction_refs[j],
            ) is Some by {
                if j > 0 {
                    assert(rest[j - 1] == instruction_refs[j]);
                }
            }
        }
        if exists|k: int|
            #![trigger instruction_refs[k]]
            0 <= k < instruction_refs.len() && asking(registry, instruction_refs[k]) && forall|
                j: int,
            |
                0 <= j < k ==> registry.instruction_at(#[trigger] instruction_refs[j]) is Some {
            let k = choose|k: int|
                #![trigger instruction_refs[k]]
                0 <= k < instruction_refs.len() && asking(registry, instruction_refs[k]) && forall|
                    j: int,
                |
                    0 <= j < k ==> registry.instruction_at(#[trigger] instruction_refs[j]) is Some;
            if k > 0 {
                assert(registry.instruction_at(instruction_refs[0]) is Some);
                assert(rest[k - 1] == instruction_refs[k]);
            }
        }
        if stub_failure(registry, instruction_refs) is Some && registry.instruction_at(
            first,
        ) is Some {
            let k = choose|k: int|
                #![trigger rest[k]]
                0 <= k < rest.len() && registry.instruction_at(rest[k]) is None && forall|j: int|
                    0 <= j < k ==> !asking(registry, #[trigger] rest[j]);
            assert(instruction_refs[k + 1] == rest[k]);
            assert forall|j: int| 0 <= j < k + 1 implies !asking(
                registry,
                #[trigger] instruction_refs[j],
            ) by {
                if j > 0 {
                    assert(rest[j - 1] == instruction_refs[j]);
                }
            }
        }
        if exists|k: int|
            #![trigger instruction_refs[k]]
            0 <= k < instruction_refs.len() && registry.instruction_at(instruction_refs[k]) is None
                && forall|j: int|
                0 <= j < k ==> !asking(registry, #[trigger] instruction_refs[j]) {
            let k = choose|k: int|
                #![trigger instruction_refs[k]]
                0 <= k < instruction_refs.len() && registry.instruction_at(
                    instruction_refs[k],
                ) is None && forall|j: int|
                    0 <= j < k ==> !asking(registry, #[trigger] instruction_refs[j]);
            if k > 0 {
                assert(!asking(registry, instruction_refs[0]));
                assert(rest[k - 1] == instruction_refs[k]);
            }
        }
    }
}

} // verus!
