//! Variable command and control: the reflected variables of each stream,
//! how control replies change them, and which notices they raise.
//!
//! Float quantities (variable values, limits) are held as the bit patterns
//! of their IEEE-754 single-precision values: the control logic only copies
//! them.

use vstd::prelude::*;

verus! {

/// How a stream's variables are applied by NYPA DB.
#[derive(Clone, Copy, Debug, PartialEq, Eq, Structural)]
pub enum NypaDbVariableStrategy {
    JsonRpc,
    StateVector,
}

/// How a variable is meant to be shown.
#[derive(Clone, Copy, Debug, PartialEq, Eq, Structural)]
pub enum NypaDbVariableSemantic {
    Bool,
    Real,
}

/// One controllable variable of a stream.
#[derive(Clone, Debug)]
pub struct NypaDbVariable {
    pub name: String,
    pub internal_name: String,
    pub description: Option<String>,
    /// Bits of the `f32` value the variable resets to.
    pub initial_value: u32,
    /// Bits of the `f32` current value.
    pub value: u32,
    /// Bits of the `f32` lower limit, if any.
    pub min: Option<u32>,
    /// Bits of the `f32` upper limit, if any.
    pub max: Option<u32>,
    pub semantic: NypaDbVariableSemantic,
    pub index: Option<usize>,
    pub source: Option<usize>,
}

/// The variables of one stream.
#[derive(Clone, Debug)]
pub struct NypaDbVariableStream {
    pub stream_id: usize,
    pub strategy: NypaDbVariableStrategy,
    pub variables: Vec<NypaDbVariable>,
}

/// A stream's variables, as values.
pub struct VariableStreamView {
    pub stream_id: usize,
    pub strategy: NypaDbVariableStrategy,
    pub variables: Seq<NypaDbVariable>,
}

impl View for NypaDbVariableStream {
    type V = VariableStreamView;

    open spec fn view(&self) -> VariableStreamView {
        VariableStreamView {
            stream_id: self.stream_id,
            strategy: self.strategy,
            variables: self.variables@,
        }
    }
}

/// The views of a list of streams.
pub open spec fn streams_view(streams: Seq<NypaDbVariableStream>) -> Seq<VariableStreamView> {
    streams.map_values(|s: NypaDbVariableStream| s@)
}

/// The reflected variables of every stream that has answered, kept sorted
/// by stream id.
#[derive(Clone, Debug)]
pub struct NypaDbVariables {
    pub streams: Vec<NypaDbVariableStream>,
}

impl View for NypaDbVariables {
    type V = Seq<VariableStreamView>;

    open spec fn view(&self) -> Seq<VariableStreamView> {
        streams_view(self.streams@)
    }
}

/// A variable's new value, as NYPA DB confirmed it.
#[derive(Clone, Debug)]
pub struct NypaDbVariableSet {
    pub stream_id: usize,
    pub name: String,
    /// Bits of the `f32` new value.
    pub value: u32,
}

/// A reset of a stream's variables, as NYPA DB reported it.
#[derive(Clone, Debug)]
pub struct NypaDbVariableReset {
    pub stream_id: usize,
    pub strategy: NypaDbVariableStrategy,
    pub reset_count: usize,
    pub skipped: bool,
    pub message: String,
}

/// A control operation sent to NYPA DB.
#[derive(Clone, Debug)]
pub enum NypaDbControlOperation {
    GetVariables { stream_id: usize },
    /// `value` holds the bits of the `f32` value to set.
    SetVariable { stream_id: usize, name: String, value: u32 },
    ResetVariables { stream_id: usize },
}

/// A control operation that failed, with the reason.
#[derive(Clone, Debug)]
pub struct NypaDbControlError {
    pub stream_id: usize,
    pub operation: NypaDbControlOperation,
    pub message: String,
}

/// Raised when a stream's reflected variables may have changed.
#[derive(Clone, Copy, Debug, PartialEq, Eq, Structural)]
pub struct NypaDbVariablesChanged {
    pub stream_id: usize,
}

/// What the control worker got back for one operation.
#[derive(Clone, Debug)]
pub enum ControlResponse {
    Variables(NypaDbVariableStream),
    VariableSet(NypaDbVariableSet),
    VariableReset(NypaDbVariableReset),
    Error(NypaDbControlError),
}

/// A notice raised while applying a control response, in the order raised.
#[derive(Clone, Debug)]
pub enum ControlNotice {
    VariablesChanged(NypaDbVariablesChanged),
    VariableSet(NypaDbVariableSet),
    VariableReset(NypaDbVariableReset),
    Error(NypaDbControlError),
}

impl NypaDbControlOperation {
    pub open spec fn spec_stream_id(&self) -> usize {
        match self {
            NypaDbControlOperation::GetVariables { stream_id } => *stream_id,
            NypaDbControlOperation::SetVariable { stream_id, .. } => *stream_id,
            NypaDbControlOperation::ResetVariables { stream_id } => *stream_id,
        }
    }

    /// The stream the operation is about.
    pub fn stream_id(&self) -> (r: usize)
        ensures
            r == self.spec_stream_id(),
    {
        match self {
            NypaDbControlOperation::GetVariables { stream_id } => *stream_id,
            NypaDbControlOperation::SetVariable { stream_id, .. } => *stream_id,
            NypaDbControlOperation::ResetVariables { stream_id } => *stream_id,
        }
    }
}

/// `i` is the first stream with this id.
pub open spec fn is_first_stream(streams: Seq<VariableStreamView>, id: usize, i: int) -> bool {
    &&& 0 <= i < streams.len()
    &&& streams[i].stream_id == id
    &&& forall|j: int| 0 <= j < i ==> (#[trigger] streams[j]).stream_id != id
}

/// The index of the first stream with this id, or -1.
pub open spec fn first_stream_index(streams: Seq<VariableStreamView>, id: usize) -> int {
    if exists|i: int| is_first_stream(streams, id, i) {
        choose|i: int| is_first_stream(streams, id, i)
    } else {
        -1
    }
}

/// `j` is the first variable with this internal name.
pub open spec fn is_first_variable(vars: Seq<NypaDbVariable>, name: Seq<char>, j: int) -> bool {
    &&& 0 <= j < vars.len()
    &&& vars[j].internal_name@ == name
    &&& forall|k: int| 0 <= k < j ==> (#[trigger] vars[k]).internal_name@ != name
}

/// The index of the first variable with this internal name, or -1.
pub open spec fn first_variable_index(vars: Seq<NypaDbVariable>, name: Seq<char>) -> int {
    if exists|j: int| is_first_variable(vars, name, j) {
        choose|j: int| is_first_variable(vars, name, j)
    } else {
        -1
    }
}

proof fn lemma_first_stream(streams: Seq<VariableStreamView>, id: usize, i: int)
    requires
        is_first_stream(streams, id, i),
    ensures
        first_stream_index(streams, id) == i,
{
    let c = choose|c: int| is_first_stream(streams, id, c);
    assert(is_first_stream(streams, id, c));
    if c < i {
        assert(streams[c].stream_id != id);
    } else if c > i {
        assert(streams[i].stream_id != id);
    }
}

proof fn lemma_no_stream(streams: Seq<VariableStreamView>, id: usize)
    requires
        forall|j: int| 0 <= j < streams.len() ==> (#[trigger] streams[j]).stream_id != id,
    ensures
        first_stream_index(streams, id) == -1,
{
}

proof fn lemma_first_variable(vars: Seq<NypaDbVariable>, name: Seq<char>, j: int)
    requires
        is_first_variable(vars, name, j),
    ensures
        first_variable_index(vars, name) == j,
{
    let c = choose|c: int| is_first_variable(vars, name, c);
    assert(is_first_variable(vars, name, c));
    if c < j {
        assert(vars[c].internal_name@ != name);
    } else if c > j {
        assert(vars[j].internal_name@ != name);
    }
}

proof fn lemma_no_variable(vars: Seq<NypaDbVariable>, name: Seq<char>)
    requires
        forall|k: int| 0 <= k < vars.len() ==> (#[trigger] vars[k]).internal_name@ != name,
    ensures
        first_variable_index(vars, name) == -1,
{
}

/// `sorted` with `x` inserted after every element whose id is at most
/// `x`'s, scanning from the end.
pub open spec fn insert_by_stream_id(sorted: Seq<VariableStreamView>, x: VariableStreamView) -> Seq<
    VariableStreamView,
>
    decreases sorted.len(),
{
    if sorted.len() == 0 || sorted.last().stream_id <= x.stream_id {
        sorted.push(x)
    } else {
        insert_by_stream_id(sorted.drop_last(), x).push(sorted.last())
    }
}

/// The stable sort of `s` by stream id: streams with equal ids keep their
/// order.
pub open spec fn sort_by_stream_id(s: Seq<VariableStreamView>) -> Seq<VariableStreamView>
    decreases s.len(),
{
    if s.len() == 0 {
        s
    } else {
        insert_by_stream_id(sort_by_stream_id(s.drop_last()), s.last())
    }
}

/// The streams after a snapshot of `stream` arrives: it replaces the first
/// stream with its id; a new stream is added and the list stably sorted by
/// stream id.
pub open spec fn spec_upsert(streams: Seq<VariableStreamView>, stream: VariableStreamView) -> Seq<
    VariableStreamView,
> {
    let i = first_stream_index(streams, stream.stream_id);
    if i >= 0 {
        streams.update(i, stream)
    } else {
        sort_by_stream_id(streams.push(stream))
    }
}

/// The streams after NYPA DB confirms that variable `name` of stream
/// `stream_id` now has `value`: the first such variable of the first such
/// stream takes the value; nothing changes when there is none.
pub open spec fn spec_apply_update(
    streams: Seq<VariableStreamView>,
    stream_id: usize,
    name: Seq<char>,
    value: u32,
) -> Seq<VariableStreamView> {
    let i = first_stream_index(streams, stream_id);
    if i < 0 {
        streams
    } else {
        let vars = streams[i].variables;
        let j = first_variable_index(vars, name);
        if j < 0 {
            streams
        } else {
            streams.update(
                i,
                VariableStreamView {
                    variables: vars.update(j, NypaDbVariable { value, ..vars[j] }),
                    ..streams[i]
                },
            )
        }
    }
}

/// A variable back at its initial value.
pub open spec fn reset_variable(v: NypaDbVariable) -> NypaDbVariable {
    NypaDbVariable { value: v.initial_value, ..v }
}

/// The streams after a reset of stream `stream_id`: unless the reset was
/// skipped, every variable of the first such stream takes its initial
/// value.
pub open spec fn spec_apply_reset(
    streams: Seq<VariableStreamView>,
    stream_id: usize,
    skipped: bool,
) -> Seq<VariableStreamView> {
    let i = first_stream_index(streams, stream_id);
    if skipped || i < 0 {
        streams
    } else {
        streams.update(
            i,
            VariableStreamView {
                variables: streams[i].variables.map_values(|v: NypaDbVariable| reset_variable(v)),
                ..streams[i]
            },
        )
    }
}

proof fn lemma_insert_at(sorted: Seq<VariableStreamView>, x: VariableStreamView, p: int)
    requires
        0 <= p <= sorted.len(),
        forall|j: int| p <= j < sorted.len() ==> (#[trigger] sorted[j]).stream_id > x.stream_id,
        p == 0 || sorted[p - 1].stream_id <= x.stream_id,
    ensures
        insert_by_stream_id(sorted, x) == sorted.insert(p, x),
    decreases sorted.len(),
{
    if sorted.len() == p {
        assert(sorted.insert(p, x) =~= sorted.push(x));
    } else {
        lemma_insert_at(sorted.drop_last(), x, p);
        assert(sorted.drop_last().insert(p, x).push(sorted.last()) =~= sorted.insert(p, x));
    }
}

/// Inserts `x` into `v` after every stream whose id is at most `x`'s,
/// scanning from the end.
fn insert_stream_sorted(v: &mut Vec<NypaDbVariableStream>, x: NypaDbVariableStream)
    ensures
        streams_view(final(v)@) == insert_by_stream_id(streams_view(old(v)@), x@),
{
    let mut p = v.len();
    while p > 0 && v[p - 1].stream_id > x.stream_id
        invariant
            p <= v.len(),
            forall|j: int| p <= j < v.len() ==> (#[trigger] v@[j]).stream_id > x.stream_id,
        decreases p,
    {
        p = p - 1;
    }
    let ghost before = streams_view(v@);
    proof {
        lemma_insert_at(before, x@, p as int);
    }
    v.insert(p, x);
    assert(streams_view(v@) =~= before.insert(p as int, x@));
}

impl Default for NypaDbVariables {
    /// No stream has answered yet.
    fn default() -> (r: NypaDbVariables)
        ensures
            r@ == Seq::<VariableStreamView>::empty(),
    {
        let r = NypaDbVariables { streams: Vec::new() };
        assert(r@ =~= Seq::<VariableStreamView>::empty());
        r
    }
}

impl NypaDbVariables {
    /// The first stream with this id.
    pub fn stream(&self, stream_id: usize) -> (r: Option<&NypaDbVariableStream>)
        ensures
            match r {
                Some(s) => first_stream_index(self@, stream_id) >= 0 && s@ == self@[first_stream_index(
                    self@,
                    stream_id,
                )],
                None => first_stream_index(self@, stream_id) == -1,
            },
    {
        let mut k: usize = 0;
        while k < self.streams.len()
            invariant
                k <= self.streams.len(),
                forall|j: int| 0 <= j < k ==> (#[trigger] self@[j]).stream_id != stream_id,
            decreases self.streams.len() - k,
        {
            if self.streams[k].stream_id == stream_id {
                proof {
                    lemma_first_stream(self@, stream_id, k as int);
                }
                return Some(&self.streams[k]);
            }
            k = k + 1;
        }
        proof {
            lemma_no_stream(self@, stream_id);
        }
        None
    }

    /// The first variable with this internal name in the first stream with
    /// this id.
    pub fn variable(&self, stream_id: usize, internal_name: &str) -> (r: Option<&NypaDbVariable>)
        ensures
            ({
                let i = first_stream_index(self@, stream_id);
                let j = if i >= 0 {
                    first_variable_index(self@[i].variables, internal_name@)
                } else {
                    -1
                };
                match r {
                    Some(v) => j >= 0 && *v == self@[i].variables[j],
                    None => j == -1,
                }
            }),
    {
        match self.variable_position(stream_id, internal_name) {
            Some((i, j)) => Some(&self.streams[i].variables[j]),
            None => None,
        }
    }

    /// Where `variable` finds its variable: the index of the first stream
    /// with this id and of the first variable with this internal name in it.
    pub fn variable_position(&self, stream_id: usize, internal_name: &str) -> (r: Option<
        (usize, usize),
    >)
        ensures
            ({
                let i = first_stream_index(self@, stream_id);
                let j = if i >= 0 {
                    first_variable_index(self@[i].variables, internal_name@)
                } else {
                    -1
                };
                match r {
                    Some((a, b)) => j >= 0 && a == i && b == j && a < self.streams.len() && b
                        < self.streams@[a as int].variables.len(),
                    None => j == -1,
                }
            }),
    {
        let name = internal_name.to_owned();
        match self.stream_index(stream_id) {
            None => None,
            Some(i) => {
                let ghost vars = self@[i as int].variables;
                let mut k: usize = 0;
                while k < self.streams[i].variables.len()
                    invariant
                        i < self.streams.len(),
                        k <= self.streams[i as int].variables.len(),
                        vars == self@[i as int].variables,
                        i == first_stream_index(self@, stream_id),
                        name@ == internal_name@,
                        forall|j: int|
                            0 <= j < k ==> (#[trigger] vars[j]).internal_name@ != name@,
                    decreases self.streams[i as int].variables.len() - k,
                {
                    if self.streams[i].variables[k].internal_name == name {
                        proof {
                            lemma_first_variable(vars, name@, k as int);
                        }
                        return Some((i, k));
                    }
                    k = k + 1;
                }
                proof {
                    lemma_no_variable(vars, name@);
                }
                None
            },
        }
    }

    /// Index of the first stream with this id, where `stream` finds it.
    pub fn stream_index(&self, stream_id: usize) -> (r: Option<usize>)
        ensures
            match r {
                Some(i) => i == first_stream_index(self@, stream_id) && i < self.streams.len(),
                None => first_stream_index(self@, stream_id) == -1,
            },
    {
        let mut k: usize = 0;
        while k < self.streams.len()
            invariant
                k <= self.streams.len(),
                forall|j: int| 0 <= j < k ==> (#[trigger] self@[j]).stream_id != stream_id,
            decreases self.streams.len() - k,
        {
            if self.streams[k].stream_id == stream_id {
                proof {
                    lemma_first_stream(self@, stream_id, k as int);
                }
                return Some(k);
            }
            k = k + 1;
        }
        proof {
            lemma_no_stream(self@, stream_id);
        }
        None
    }

    /// Takes a fresh snapshot of one stream's variables: it replaces the
    /// stream with the same id, or is added with the streams kept sorted by
    /// id.
    pub fn upsert_stream(&mut self, stream: NypaDbVariableStream)
        ensures
            final(self)@ == spec_upsert(old(self)@, stream@),
    {
        match self.stream_index(stream.stream_id) {
            Some(i) => {
                let ghost before = self@;
                let ghost sv = stream@;
                self.streams.set(i, stream);
                assert(self@ =~= before.update(i as int, sv));
            },
            None => {
                let ghost all = self@.push(stream@);
                let mut input: Vec<NypaDbVariableStream> = Vec::new();
                std::mem::swap(&mut input, &mut self.streams);
                input.push(stream);
                assert(streams_view(input@) =~= all);
                let mut sorted: Vec<NypaDbVariableStream> = Vec::new();
                let mut i: usize = 0;
                let n = input.len();
                while input.len() > 0
                    invariant
                        i + input.len() == n,
                        n == all.len(),
                        streams_view(input@) == all.skip(i as int),
                        streams_view(sorted@) == sort_by_stream_id(all.take(i as int)),
                    decreases input.len(),
                {
                    let ghost prev_input = input@;
                    let x = input.remove(0);
                    proof {
                        assert forall|j: int| 0 <= j < input@.len() implies streams_view(input@)[j]
                            == all.skip(i + 1)[j] by {
                            assert(input@[j] == prev_input[j + 1]);
                            assert(streams_view(prev_input)[j + 1] == all.skip(i as int)[j + 1]);
                        }
                        assert(all.take(i + 1).drop_last() =~= all.take(i as int));
                        assert(all[i as int] == x@) by {
                            assert(all.skip(i as int)[0] == x@);
                        }
                        assert(all.take(i + 1).last() == x@);
                        assert(streams_view(input@) =~= all.skip(i + 1));
                    }
                    insert_stream_sorted(&mut sorted, x);
                    i = i + 1;
                }
                assert(all.take(n as int) =~= all);
                self.streams = sorted;
            },
        }
    }

    /// Takes NYPA DB's confirmation of a set variable.
    pub fn apply_update(&mut self, update: &NypaDbVariableSet)
        ensures
            final(self)@ == spec_apply_update(
                old(self)@,
                update.stream_id,
                update.name@,
                update.value,
            ),
    {
        match self.stream_index(update.stream_id) {
            None => {},
            Some(i) => {
                let ghost vars = self@[i as int].variables;
                let ghost start = self@;
                let mut k: usize = 0;
                while k < self.streams[i].variables.len()
                    invariant
                        i < self.streams.len(),
                        self@ == start,
                        start == old(self)@,
                        i == first_stream_index(start, update.stream_id),
                        k <= self.streams[i as int].variables.len(),
                        vars == self@[i as int].variables,
                        forall|j: int|
                            0 <= j < k ==> (#[trigger] vars[j]).internal_name@ != update.name@,
                    decreases self.streams[i as int].variables.len() - k,
                {
                    if self.streams[i].variables[k].internal_name == update.name {
                        proof {
                            lemma_first_variable(vars, update.name@, k as int);
                        }
                        let ghost before = self@;
                        self.streams[i].variables[k].value = update.value;
                        assert(self@ =~= before.update(
                            i as int,
                            VariableStreamView {
                                variables: vars.update(
                                    k as int,
                                    NypaDbVariable { value: update.value, ..vars[k as int] },
                                ),
                                ..before[i as int]
                            },
                        ));
                        return ;
                    }
                    k = k + 1;
                }
                proof {
                    lemma_no_variable(vars, update.name@);
                }
            },
        }
    }

    /// Takes NYPA DB's report of a reset: unless it was skipped, the
    /// stream's variables go back to their initial values.
    pub fn apply_reset(&mut self, reset: &NypaDbVariableReset)
        ensures
            final(self)@ == spec_apply_reset(old(self)@, reset.stream_id, reset.skipped),
    {
        if reset.skipped {
            return ;
        }
        match self.stream_index(reset.stream_id) {
            None => {},
            Some(i) => {
                let ghost before = self@;
                let ghost raw = self.streams@;
                let ghost vars = self@[i as int].variables;
                let mut k: usize = 0;
                while k < self.streams[i].variables.len()
                    invariant
                        i < raw.len(),
                        vars == raw[i as int].variables@,
                        self.streams@.len() == raw.len(),
                        forall|j: int|
                            0 <= j < raw.len() && j != i ==> #[trigger] self.streams@[j] == raw[j],
                        self.streams@[i as int].stream_id == raw[i as int].stream_id,
                        self.streams@[i as int].strategy == raw[i as int].strategy,
                        self.streams@[i as int].variables@.len() == vars.len(),
                        k <= vars.len(),
                        forall|j: int|
                            0 <= j < k ==> #[trigger] self.streams@[i as int].variables@[j]
                                == reset_variable(vars[j]),
                        forall|j: int|
                            k <= j < vars.len() ==> #[trigger] self.streams@[i as int].variables@[j]
                                == vars[j],
                    decreases vars.len() - k,
                {
                    let initial = self.streams[i].variables[k].initial_value;
                    self.streams[i].variables[k].value = initial;
                    k = k + 1;
                }
                assert(self.streams@[i as int].variables@ =~= vars.map_values(
                    |v: NypaDbVariable| reset_variable(v),
                ));
                assert(self@ =~= before.update(
                    i as int,
                    VariableStreamView {
                        variables: vars.map_values(|v: NypaDbVariable| reset_variable(v)),
                        ..before[i as int]
                    },
                ));
            },
        }
    }
}

impl NypaDbVariables {
    /// Applies one control response and gives the notices it raises, in
    /// order: a snapshot replaces the stream's variables and raises a
    /// change; a confirmed set and a reset are applied and raise a change,
    /// then themselves; an error only raises itself.
    pub fn apply_response(&mut self, response: ControlResponse) -> (notices: Vec<ControlNotice>)
        ensures
            match response {
                ControlResponse::Variables(stream) => {
                    &&& final(self)@ == spec_upsert(old(self)@, stream@)
                    &&& notices@ == seq![
                        ControlNotice::VariablesChanged(
                            NypaDbVariablesChanged { stream_id: stream.stream_id },
                        ),
                    ]
                },
                ControlResponse::VariableSet(update) => {
                    &&& final(self)@ == spec_apply_update(
                        old(self)@,
                        update.stream_id,
                        update.name@,
                        update.value,
                    )
                    &&& notices@ == seq![
                        ControlNotice::VariablesChanged(
                            NypaDbVariablesChanged { stream_id: update.stream_id },
                        ),
                        ControlNotice::VariableSet(update),
                    ]
                },
                ControlResponse::VariableReset(reset) => {
                    &&& final(self)@ == spec_apply_reset(old(self)@, reset.stream_id, reset.skipped)
                    &&& notices@ == seq![
                        ControlNotice::VariablesChanged(
                            NypaDbVariablesChanged { stream_id: reset.stream_id },
                        ),
                        ControlNotice::VariableReset(reset),
                    ]
                },
                ControlResponse::Error(error) => {
                    &&& final(self)@ == old(self)@
                    &&& notices@ == seq![ControlNotice::Error(error)]
                },
            },
    {
        let mut notices: Vec<ControlNotice> = Vec::new();
        match response {
            ControlResponse::Variables(stream) => {
                let stream_id = stream.stream_id;
                self.upsert_stream(stream);
                notices.push(ControlNotice::VariablesChanged(NypaDbVariablesChanged { stream_id }));
            },
            ControlResponse::VariableSet(update) => {
                self.apply_update(&update);
                notices.push(
                    ControlNotice::VariablesChanged(
                        NypaDbVariablesChanged { stream_id: update.stream_id },
                    ),
                );
                notices.push(ControlNotice::VariableSet(update));
            },
            ControlResponse::VariableReset(reset) => {
                self.apply_reset(&reset);
                notices.push(
                    ControlNotice::VariablesChanged(
                        NypaDbVariablesChanged { stream_id: reset.stream_id },
                    ),
                );
                notices.push(ControlNotice::VariableReset(reset));
            },
            ControlResponse::Error(error) => {
                notices.push(ControlNotice::Error(error));
            },
        }
        notices
    }
}

/// Stream ids strictly increase along the list.
pub open spec fn sorted_by_stream_id(s: Seq<VariableStreamView>) -> bool {
    forall|i: int, j: int| 0 <= i < j < s.len() ==> s[i].stream_id < s[j].stream_id
}

proof fn lemma_insert_sorted(s: Seq<VariableStreamView>, x: VariableStreamView)
    requires
        sorted_by_stream_id(s),
        forall|k: int| 0 <= k < s.len() ==> (#[trigger] s[k]).stream_id != x.stream_id,
    ensures
        sorted_by_stream_id(insert_by_stream_id(s, x)),
        insert_by_stream_id(s, x).len() == s.len() + 1,
        insert_by_stream_id(s, x).contains(x),
        forall|e: VariableStreamView| s.contains(e) ==> insert_by_stream_id(s, x).contains(e),
        forall|k: int|
            0 <= k < insert_by_stream_id(s, x).len() ==> #[trigger] insert_by_stream_id(s, x)[k] == x
                || s.contains(insert_by_stream_id(s, x)[k]),
    decreases s.len(),
{
    let r = insert_by_stream_id(s, x);
    if s.len() == 0 || s.last().stream_id <= x.stream_id {
        assert(r[s.len() as int] == x);
        assert forall|e: VariableStreamView| s.contains(e) implies r.contains(e) by {
            let k = choose|k: int| 0 <= k < s.len() && s[k] == e;
            assert(r[k] == e);
        }
        assert forall|k: int| 0 <= k < r.len() implies #[trigger] r[k] == x || s.contains(r[k]) by {
            if k < s.len() {
                assert(r[k] == s[k]);
            }
        }
    } else {
        let d = s.drop_last();
        assert(sorted_by_stream_id(d));
        assert forall|k: int| 0 <= k < d.len() implies (#[trigger] d[k]).stream_id != x.stream_id by {
            assert(d[k] == s[k]);
        }
        lemma_insert_sorted(d, x);
        let r1 = insert_by_stream_id(d, x);
        assert(r == r1.push(s.last()));
        assert forall|i: int, j: int| 0 <= i < j < r.len() implies r[i].stream_id
            < r[j].stream_id by {
            if j == r.len() - 1 {
                assert(r[i] == r1[i]);
                if r1[i] != x {
                    let k = choose|k: int| 0 <= k < d.len() && d[k] == r1[i];
                    assert(s[k] == d[k]);
                }
            } else {
                assert(r[i] == r1[i]);
                assert(r[j] == r1[j]);
            }
        }
        assert(r1.contains(x));
        let kx = choose|k: int| 0 <= k < r1.len() && r1[k] == x;
        assert(r[kx] == x);
        assert forall|e: VariableStreamView| s.contains(e) implies r.contains(e) by {
            let k = choose|k: int| 0 <= k < s.len() && s[k] == e;
            if k == s.len() - 1 {
                assert(r[r.len() - 1] == e);
            } else {
                assert(d[k] == e);
                assert(d.contains(e));
                let m = choose|m: int| 0 <= m < r1.len() && r1[m] == e;
                assert(r[m] == e);
            }
        }
        assert forall|k: int| 0 <= k < r.len() implies #[trigger] r[k] == x || s.contains(r[k]) by {
            if k < r1.len() {
                assert(r[k] == r1[k]);
                if r1[k] != x {
                    let m = choose|m: int| 0 <= m < d.len() && d[m] == r1[k];
                    assert(s[m] == d[m]);
                }
            } else {
                assert(s[s.len() - 1] == r[k]);
            }
        }
    }
}

proof fn lemma_sort_of_sorted(s: Seq<VariableStreamView>)
    requires
        sorted_by_stream_id(s),
    ensures
        sort_by_stream_id(s) == s,
    decreases s.len(),
{
    if s.len() > 0 {
        let d = s.drop_last();
        assert(sorted_by_stream_id(d));
        lemma_sort_of_sorted(d);
        if d.len() > 0 {
            assert(d.last() == s[s.len() - 2]);
        }
        assert(d.push(s.last()) =~= s);
    }
}

/// Taking a snapshot keeps the streams sorted by id, each id once: the
/// snapshot is the stream found under its id, every other stream stays, and
/// every stream of the result is the snapshot or one that was there before.
pub proof fn lemma_upsert_keeps_streams_sorted(s: Seq<VariableStreamView>, x: VariableStreamView)
    requires
        sorted_by_stream_id(s),
    ensures
        sorted_by_stream_id(spec_upsert(s, x)),
        first_stream_index(spec_upsert(s, x), x.stream_id) >= 0,
        spec_upsert(s, x)[first_stream_index(spec_upsert(s, x), x.stream_id)] == x,
        forall|e: VariableStreamView|
            s.contains(e) && e.stream_id != x.stream_id ==> spec_upsert(s, x).contains(e),
        forall|k: int|
            0 <= k < spec_upsert(s, x).len() ==> #[trigger] spec_upsert(s, x)[k] == x
                || s.contains(spec_upsert(s, x)[k]),
        spec_upsert(s, x).len() == s.len() + (if first_stream_index(s, x.stream_id) >= 0 {
            0int
        } else {
            1int
        }),
{
    let r = spec_upsert(s, x);
    let i = first_stream_index(s, x.stream_id);
    if i >= 0 {
        assert(is_first_stream(s, x.stream_id, i)) by {
            assert(exists|k: int| is_first_stream(s, x.stream_id, k));
        }
        assert(is_first_stream(r, x.stream_id, i));
        lemma_first_stream(r, x.stream_id, i);
        assert forall|e: VariableStreamView|
            s.contains(e) && e.stream_id != x.stream_id implies r.contains(e) by {
            let k = choose|k: int| 0 <= k < s.len() && s[k] == e;
            assert(r[k] == e);
        }
        assert forall|k: int| 0 <= k < r.len() implies #[trigger] r[k] == x || s.contains(r[k]) by {
            if k != i {
                assert(s[k] == r[k]);
            }
        }
    } else {
        assert forall|k: int| 0 <= k < s.len() implies (#[trigger] s[k]).stream_id
            != x.stream_id by {
            if s[k].stream_id == x.stream_id {
                assert(is_first_stream(s, x.stream_id, k));
            }
        }
        assert(s.push(x).drop_last() =~= s);
        lemma_sort_of_sorted(s);
        assert(r == insert_by_stream_id(s, x));
        lemma_insert_sorted(s, x);
        let k = choose|k: int| 0 <= k < r.len() && r[k] == x;
        assert forall|j: int| 0 <= j < k implies (#[trigger] r[j]).stream_id != x.stream_id by {}
        assert(is_first_stream(r, x.stream_id, k));
        lemma_first_stream(r, x.stream_id, k);
    }
}

/// After NYPA DB confirms a new value for an existing variable, looking the
/// variable up gives that value; the other variables of the stream keep
/// theirs.
pub proof fn lemma_update_then_lookup(
    s: Seq<VariableStreamView>,
    stream_id: usize,
    name: Seq<char>,
    value: u32,
)
    requires
        first_stream_index(s, stream_id) >= 0,
        first_variable_index(s[first_stream_index(s, stream_id)].variables, name) >= 0,
    ensures
        ({
            let r = spec_apply_update(s, stream_id, name, value);
            let i = first_stream_index(r, stream_id);
            let j = first_variable_index(r[i].variables, name);
            &&& i == first_stream_index(s, stream_id)
            &&& j == first_variable_index(s[i].variables, name)
            &&& r[i].variables[j].value == value
            &&& r[i].variables.len() == s[i].variables.len()
            &&& forall|k: int|
                0 <= k < s[i].variables.len() && k != j ==> #[trigger] r[i].variables[k]
                    == s[i].variables[k]
        }),
{
    let i = first_stream_index(s, stream_id);
    let vars = s[i].variables;
    let j = first_variable_index(vars, name);
    assert(is_first_stream(s, stream_id, i)) by {
        assert(exists|k: int| is_first_stream(s, stream_id, k));
    }
    assert(is_first_variable(vars, name, j)) by {
        assert(exists|k: int| is_first_variable(vars, name, k));
    }
    let r = spec_apply_update(s, stream_id, name, value);
    assert(is_first_stream(r, stream_id, i));
    lemma_first_stream(r, stream_id, i);
    assert(is_first_variable(r[i].variables, name, j));
    lemma_first_variable(r[i].variables, name, j);
}

/// After a reset that was not skipped, every variable of the stream holds
/// its initial value again, and nothing else about the variables changes.
pub proof fn lemma_reset_restores_initial_values(s: Seq<VariableStreamView>, stream_id: usize)
    requires
        first_stream_index(s, stream_id) >= 0,
    ensures
        ({
            let r = spec_apply_reset(s, stream_id, false);
            let i = first_stream_index(r, stream_id);
            &&& i == first_stream_index(s, stream_id)
            &&& r[i].variables.len() == s[i].variables.len()
            &&& forall|k: int|
                0 <= k < r[i].variables.len() ==> (#[trigger] r[i].variables[k]).value
                    == r[i].variables[k].initial_value && r[i].variables[k].internal_name
                    == s[i].variables[k].internal_name && r[i].variables[k].initial_value
                    == s[i].variables[k].initial_value
        }),
{
    let i = first_stream_index(s, stream_id);
    assert(is_first_stream(s, stream_id, i)) by {
        assert(exists|k: int| is_first_stream(s, stream_id, k));
    }
    let r = spec_apply_reset(s, stream_id, false);
    assert(is_first_stream(r, stream_id, i));
    lemma_first_stream(r, stream_id, i);
}

/// A confirmed set touches one variable of one stream: the streams keep
/// their number, ids, strategies and variable counts; a stream with another
/// id, or a later stream with the same id, is unchanged; and a variable
/// either stays as it was or, if its internal name is the one set, only
/// takes the new value. No variable of another stream changes.
pub proof fn lemma_update_touches_only_its_variable(
    s: Seq<VariableStreamView>,
    stream_id: usize,
    name: Seq<char>,
    value: u32,
)
    ensures
        ({
            let r = spec_apply_update(s, stream_id, name, value);
            &&& r.len() == s.len()
            &&& forall|k: int|
                0 <= k < s.len() ==> (#[trigger] r[k]).stream_id == s[k].stream_id && r[k].strategy
                    == s[k].strategy && r[k].variables.len() == s[k].variables.len()
            &&& forall|k: int|
                0 <= k < s.len() && s[k].stream_id != stream_id ==> #[trigger] r[k] == s[k]
            &&& forall|k: int, j: int|
                0 <= j < k < s.len() && (#[trigger] s[j]).stream_id == stream_id ==> #[trigger] r[k]
                    == s[k]
            &&& forall|k: int, m: int|
                0 <= k < s.len() && 0 <= m < s[k].variables.len() ==> #[trigger] r[k].variables[m]
                    == s[k].variables[m] || (s[k].variables[m].internal_name@ == name
                    && s[k].stream_id == stream_id && r[k].variables[m] == (NypaDbVariable {
                    value,
                    ..s[k].variables[m]
                }))
        }),
{
    let i = first_stream_index(s, stream_id);
    if i >= 0 {
        assert(is_first_stream(s, stream_id, i)) by {
            assert(exists|k: int| is_first_stream(s, stream_id, k));
        }
        let vars = s[i].variables;
        let j = first_variable_index(vars, name);
        if j >= 0 {
            assert(is_first_variable(vars, name, j)) by {
                assert(exists|k: int| is_first_variable(vars, name, k));
            }
        }
    }
}

/// A reset touches one stream: the streams keep their number, ids,
/// strategies and variable counts; a skipped reset changes nothing; a stream
/// with another id, or a later stream with the same id, is unchanged; and a
/// variable either stays as it was or only takes its initial value as its
/// value. No variable of another stream changes.
pub proof fn lemma_reset_touches_only_its_stream(
    s: Seq<VariableStreamView>,
    stream_id: usize,
    skipped: bool,
)
    ensures
        ({
            let r = spec_apply_reset(s, stream_id, skipped);
            &&& skipped ==> r == s
            &&& r.len() == s.len()
            &&& forall|k: int|
                0 <= k < s.len() ==> (#[trigger] r[k]).stream_id == s[k].stream_id && r[k].strategy
                    == s[k].strategy && r[k].variables.len() == s[k].variables.len()
            &&& forall|k: int|
                0 <= k < s.len() && s[k].stream_id != stream_id ==> #[trigger] r[k] == s[k]
            &&& forall|k: int, j: int|
                0 <= j < k < s.len() && (#[trigger] s[j]).stream_id == stream_id ==> #[trigger] r[k]
                    == s[k]
            &&& forall|k: int, m: int|
                0 <= k < s.len() && 0 <= m < s[k].variables.len() ==> #[trigger] r[k].variables[m]
                    == s[k].variables[m] || (s[k].stream_id == stream_id && r[k].variables[m] == (
                NypaDbVariable { value: s[k].variables[m].initial_value, ..s[k].variables[m] }))
        }),
{
    let i = first_stream_index(s, stream_id);
    if i >= 0 {
        assert(is_first_stream(s, stream_id, i)) by {
            assert(exists|k: int| is_first_stream(s, stream_id, k));
        }
    }
}

/// Every operation names the stream it was built for, so a failed
/// operation's error (see `response_for`) is reported for that stream.
pub proof fn lemma_operation_names_its_stream(stream_id: usize, name: String, value: u32)
    ensures
        (NypaDbControlOperation::GetVariables { stream_id }).spec_stream_id() == stream_id,
        (NypaDbControlOperation::SetVariable { stream_id, name, value }).spec_stream_id()
            == stream_id,
        (NypaDbControlOperation::ResetVariables { stream_id }).spec_stream_id() == stream_id,
{
}

/// Options sent along when a variable is set.
#[derive(Clone, Debug)]
pub struct NypaDbSetVariableOptions {
    /// Name of a recording region to start when the value is set.
    pub start_region: Option<String>,
}

impl NypaDbSetVariableOptions {
    /// Setting the variable also starts a recording region with this name.
    pub fn start_region(name: String) -> (r: NypaDbSetVariableOptions)
        ensures
            r.start_region == Some(name),
    {
        NypaDbSetVariableOptions { start_region: Some(name) }
    }
}

impl Default for NypaDbSetVariableOptions {
    /// No option: the value is only set.
    fn default() -> (r: NypaDbSetVariableOptions)
        ensures
            r.start_region is None,
    {
        NypaDbSetVariableOptions { start_region: None }
    }
}

/// One variable's new value in a batch.
#[derive(Clone, Debug)]
pub struct NypaDbVariableUpdate {
    pub name: String,
    /// Bits of the `f32` value to set.
    pub value: u32,
}

/// The operations that set a batch of variables of one stream: one
/// `SetVariable` per update, in the batch's order.
pub fn set_variable_operations(stream_id: usize, updates: &Vec<NypaDbVariableUpdate>) -> (ops: Vec<
    NypaDbControlOperation,
>)
    ensures
        ops.len() == updates.len(),
        forall|i: int|
            0 <= i < updates.len() ==> #[trigger] ops@[i] == (NypaDbControlOperation::SetVariable {
                stream_id,
                name: updates@[i].name,
                value: updates@[i].value,
            }),
{
    let mut ops: Vec<NypaDbControlOperation> = Vec::new();
    let mut k: usize = 0;
    while k < updates.len()
        invariant
            k <= updates.len(),
            ops.len() == k,
            forall|i: int|
                0 <= i < k ==> #[trigger] ops@[i] == (NypaDbControlOperation::SetVariable {
                    stream_id,
                    name: updates@[i].name,
                    value: updates@[i].value,
                }),
        decreases updates.len() - k,
    {
        let update = &updates[k];
        ops.push(
            NypaDbControlOperation::SetVariable {
                stream_id,
                name: update.name.clone(),
                value: update.value,
            },
        );
        k = k + 1;
    }
    ops
}

/// The parameters of a JSON-RPC control call, besides its method name.
#[derive(Clone, Debug)]
pub struct RpcParams {
    pub stream_id: usize,
    pub name: Option<String>,
    /// Bits of the `f32` value to set.
    pub value: Option<u32>,
    /// The recording region to start when the value is set.
    pub start_region: Option<String>,
}

/// The JSON-RPC method and parameters of a control operation: `get_variables`
/// and `reset_variables` carry the stream id, `set_variable` also the
/// variable's name and value, and the recording region that `options` asks
/// to start, if any. The options apply to setting a variable only.
pub fn operation_rpc(operation: &NypaDbControlOperation, options: &NypaDbSetVariableOptions) -> (r: (
    &'static str,
    RpcParams,
))
    ensures
        match operation {
            NypaDbControlOperation::GetVariables { stream_id } => {
                &&& r.0@ == "get_variables"@
                &&& r.1.stream_id == *stream_id
                &&& r.1.name is None
                &&& r.1.value is None
                &&& r.1.start_region is None
            },
            NypaDbControlOperation::SetVariable { stream_id, name, value } => {
                &&& r.0@ == "set_variable"@
                &&& r.1.stream_id == *stream_id
                &&& r.1.name == Some(*name)
                &&& r.1.value == Some(*value)
                &&& r.1.start_region == options.start_region
            },
            NypaDbControlOperation::ResetVariables { stream_id } => {
                &&& r.0@ == "reset_variables"@
                &&& r.1.stream_id == *stream_id
                &&& r.1.name is None
                &&& r.1.value is None
                &&& r.1.start_region is None
            },
        },
{
    match operation {
        NypaDbControlOperation::GetVariables { stream_id } => (
            "get_variables",
            RpcParams { stream_id: *stream_id, name: None, value: None, start_region: None },
        ),
        NypaDbControlOperation::SetVariable { stream_id, name, value } => (
            "set_variable",
            RpcParams {
                stream_id: *stream_id,
                name: Some(name.clone()),
                value: Some(*value),
                start_region: match &options.start_region {
                    Some(region) => Some(region.clone()),
                    None => None,
                },
            },
        ),
        NypaDbControlOperation::ResetVariables { stream_id } => (
            "reset_variables",
            RpcParams { stream_id: *stream_id, name: None, value: None, start_region: None },
        ),
    }
}

/// The text of the error given when a reply has neither an error nor a
/// result.
pub open spec fn missing_result_message() -> Seq<char> {
    "JSON-RPC response did not include a result"@
}

/// Checks a JSON-RPC reply before its result is read: a reported error
/// wins (its text is passed on); otherwise the reply must hold a result.
pub fn check_rpc_reply(error: Option<String>, has_result: bool) -> (r: Result<(), String>)
    ensures
        match error {
            Some(e) => r == Err::<(), String>(e),
            None => if has_result {
                r is Ok
            } else {
                r matches Err(m) && m@ == missing_result_message()
            },
        },
{
    match error {
        Some(e) => Err(e),
        None => {
            if has_result {
                Ok(())
            } else {
                Err("JSON-RPC response did not include a result".to_owned())
            }
        },
    }
}

/// The response that the control worker hands back for an operation: the
/// reply's response, or, when the call failed, an error naming the
/// operation and its stream.
pub fn response_for(operation: NypaDbControlOperation, outcome: Result<ControlResponse, String>) -> (r:
    ControlResponse)
    ensures
        match outcome {
            Ok(response) => r == response,
            Err(message) => r == ControlResponse::Error(
                NypaDbControlError {
                    stream_id: operation.spec_stream_id(),
                    operation,
                    message,
                },
            ),
        },
{
    match outcome {
        Ok(response) => response,
        Err(message) => ControlResponse::Error(
            NypaDbControlError { stream_id: operation.stream_id(), operation, message },
        ),
    }
}

} // verus!
