//! The physical parameters that derivatives are taken with respect to, and
//! the bookkeeping of which of them a computation tracks.
use vstd::prelude::*;

verus! {

/// A quantity that derivatives can be taken with respect to.
#[derive(Clone, Copy, Debug, PartialEq, Eq, Structural)]
pub enum Parameter {
    /// Time (in units of MJD TDB).
    Time,
    /// Simulation time (in units of scaled time).
    Tau,
    /// X-coordinate in km.
    X,
    /// Y-coordinate in km.
    Y,
    /// Z-coordinate in km.
    Z,
    /// X-velocity in km/s.
    VX,
    /// Y-velocity in km/s.
    VY,
    /// Z-velocity in km/s.
    VZ,
    /// X-acceleration in km/s².
    AX,
    /// Y-acceleration in km/s².
    AY,
    /// Z-acceleration in km/s².
    AZ,
}


/// Number of distinct parameters.
pub open spec fn parameter_kinds() -> int {
    11
}

/// The fixed index of each parameter, `0..11` in declaration order.
pub open spec fn param_index(p: Parameter) -> int {
    match p {
        Parameter::Time => 0,
        Parameter::Tau => 1,
        Parameter::X => 2,
        Parameter::Y => 3,
        Parameter::Z => 4,
        Parameter::VX => 5,
        Parameter::VY => 6,
        Parameter::VZ => 7,
        Parameter::AX => 8,
        Parameter::AY => 9,
        Parameter::AZ => 10,
    }
}

/// The parameter with a given index, if there is one.
pub open spec fn param_at(i: int) -> Option<Parameter> {
    if i == 0 {
        Some(Parameter::Time)
    } else if i == 1 {
        Some(Parameter::Tau)
    } else if i == 2 {
        Some(Parameter::X)
    } else if i == 3 {
        Some(Parameter::Y)
    } else if i == 4 {
        Some(Parameter::Z)
    } else if i == 5 {
        Some(Parameter::VX)
    } else if i == 6 {
        Some(Parameter::VY)
    } else if i == 7 {
        Some(Parameter::VZ)
    } else if i == 8 {
        Some(Parameter::AX)
    } else if i == 9 {
        Some(Parameter::AY)
    } else if i == 10 {
        Some(Parameter::AZ)
    } else {
        None
    }
}

/// The display name of each parameter.
pub open spec fn param_name(p: Parameter) -> Seq<char> {
    match p {
        Parameter::Time => "Time"@,
        Parameter::Tau => "Tau"@,
        Parameter::X => "X0"@,
        Parameter::Y => "Y0"@,
        Parameter::Z => "Z0"@,
        Parameter::VX => "VX0"@,
        Parameter::VY => "VY0"@,
        Parameter::VZ => "VZ0"@,
        Parameter::AX => "AX0"@,
        Parameter::AY => "AY0"@,
        Parameter::AZ => "AZ0"@,
    }
}

impl Parameter {
    /// Number of slots reserved for parameters in the index map.
    pub const MAX_PARAMETERS: usize = 32;

    /// Parameter index.
    pub fn index(self) -> (r: usize)
        ensures
            r == param_index(self),
    {
        match self {
            Parameter::Time => 0,
            Parameter::Tau => 1,
            Parameter::X => 2,
            Parameter::Y => 3,
            Parameter::Z => 4,
            Parameter::VX => 5,
            Parameter::VY => 6,
            Parameter::VZ => 7,
            Parameter::AX => 8,
            Parameter::AY => 9,
            Parameter::AZ => 10,
        }
    }

    /// Parameter name.
    pub fn name(self) -> (r: &'static str)
        ensures
            r@ == param_name(self),
    {
        match self {
            Parameter::Time => "Time",
            Parameter::Tau => "Tau",
            Parameter::X => "X0",
            Parameter::Y => "Y0",
            Parameter::Z => "Z0",
            Parameter::VX => "VX0",
            Parameter::VY => "VY0",
            Parameter::VZ => "VZ0",
            Parameter::AX => "AX0",
            Parameter::AY => "AY0",
            Parameter::AZ => "AZ0",
        }
    }
}

/// What converting an index into a parameter gives.
pub open spec fn param_from_index(i: usize) -> Result<Parameter, ()> {
    match param_at(i as int) {
        Some(p) => Ok(p),
        None => Err(()),
    }
}

impl TryFrom<usize> for Parameter {
    type Error = ();

    fn try_from(i: usize) -> (r: Result<Self, Self::Error>)
        ensures
            r == param_from_index(i),
    {
        match i {
            0 => Ok(Parameter::Time),
            1 => Ok(Parameter::Tau),
            2 => Ok(Parameter::X),
            3 => Ok(Parameter::Y),
            4 => Ok(Parameter::Z),
            5 => Ok(Parameter::VX),
            6 => Ok(Parameter::VY),
            7 => Ok(Parameter::VZ),
            8 => Ok(Parameter::AX),
            9 => Ok(Parameter::AY),
            10 => Ok(Parameter::AZ),
            _ => Err(()),
        }
    }
}

impl vstd::std_specs::convert::TryFromSpecImpl<usize> for Parameter {
    open spec fn obeys_try_from_spec() -> bool {
        true
    }

    open spec fn try_from_spec(v: usize) -> Result<Self, Self::Error> {
        param_from_index(v)
    }
}

/// Converting a parameter's index back gives the parameter; indices past
/// the last parameter are refused.
pub proof fn lemma_index_round_trip(p: Parameter, i: usize)
    ensures
        param_from_index(param_index(p) as usize) == Ok::<Parameter, ()>(p),
        0 <= param_index(p) < parameter_kinds(),
        i >= parameter_kinds() ==> param_from_index(i) == Err::<Parameter, ()>(()),
        param_from_index(i) matches Ok(q) ==> param_index(q) == i,
{
}


/// Whether bit `i` of `mask` is set.
pub open spec fn bit_set(mask: u128, i: u128) -> bool {
    mask & (1u128 << i) != 0
}

/// `mask` has exactly the bits of the parameters in `s` set.
pub open spec fn mask_of(mask: u128, s: Seq<Parameter>) -> bool {
    forall|i: u128|
        #![trigger bit_set(mask, i)]
        i < 128 ==> (bit_set(mask, i) <==> exists|k: int|
            0 <= k < s.len() && param_index(s[k]) == i)
}

/// Position of the parameter with index `i` in `s`, if it occurs.
pub open spec fn slot_of(s: Seq<Parameter>, i: int) -> Option<usize> {
    if exists|k: int| 0 <= k < s.len() && param_index(s[k]) == i {
        Some((choose|k: int| 0 <= k < s.len() && param_index(s[k]) == i) as usize)
    } else {
        None
    }
}

/// The tracked sequence after asking to track `p`: unchanged if `p` is
/// already tracked, else `p` appended.
pub open spec fn tracked_with(s: Seq<Parameter>, p: Parameter) -> Seq<Parameter> {
    if s.contains(p) {
        s
    } else {
        s.push(p)
    }
}

/// The parameters of the initial state, in the order they are added.
pub open spec fn initial_state_tracked(s: Seq<Parameter>) -> Seq<Parameter> {
    tracked_with(
        tracked_with(
            tracked_with(
                tracked_with(
                    tracked_with(tracked_with(s, Parameter::X), Parameter::Y),
                    Parameter::Z,
                ),
                Parameter::VX,
            ),
            Parameter::VY,
        ),
        Parameter::VZ,
    )
}

/// The set of parameters that derivative arrays are laid out for. Each
/// tracked parameter gets the next free position (its *active index*) when
/// it is first added.
pub struct ParameterConfig<const ORDER: usize> {
    /// Bit `param_index(p)` is set exactly when `p` is tracked.
    active_mask: u128,
    /// Number of tracked parameters.
    parameter_count: usize,
    /// Parameter index to active index.
    index_map: Vec<Option<usize>>,
    /// Active index to parameter.
    reverse_map: Vec<Parameter>,
}

impl<const ORDER: usize> View for ParameterConfig<ORDER> {
    type V = Seq<Parameter>;

    /// The tracked parameters in order of their active index.
    closed spec fn view(&self) -> Seq<Parameter> {
        self.reverse_map@
    }
}

impl<const ORDER: usize> ParameterConfig<ORDER> {
    #[verifier::type_invariant]
    closed spec fn consistent(self) -> bool {
        &&& self.index_map@.len() == Parameter::MAX_PARAMETERS
        &&& self.parameter_count == self.reverse_map@.len()
        &&& forall|k: int|
            #![trigger self.reverse_map@[k]]
            0 <= k < self.reverse_map@.len() ==> self.index_map@[param_index(
                self.reverse_map@[k],
            )] == Some(k as usize)
        &&& forall|i: int|
            #![trigger self.index_map@[i]]
            0 <= i < Parameter::MAX_PARAMETERS ==> (self.index_map@[i] matches Some(k) ==> k
                < self.reverse_map@.len() && param_index(self.reverse_map@[k as int]) == i)
        &&& forall|i: u128|
            #![trigger bit_set(self.active_mask, i)]
            i < 128 ==> (bit_set(self.active_mask, i) <==> (i < Parameter::MAX_PARAMETERS
                && self.index_map@[i as int] is Some))
    }

    /// What the invariant gives a caller, stated over the view.
    proof fn lemma_consistent(self)
        requires
            self.consistent(),
        ensures
            self@.no_duplicates(),
            self@.len() <= parameter_kinds(),
            mask_of(self.active_mask, self@),
            forall|i: int|
                0 <= i < Parameter::MAX_PARAMETERS ==> #[trigger] self.index_map@[i] == slot_of(self@, i),
    {
        let s = self@;
        assert forall|a: int, b: int| 0 <= a < s.len() && 0 <= b < s.len() && a != b implies s[a]
            != s[b] by {
            if s[a] == s[b] {
                assert(self.index_map@[param_index(self.reverse_map@[a])] == Some(a as usize));
                assert(self.index_map@[param_index(self.reverse_map@[b])] == Some(b as usize));
            }
        }
        assert forall|i: int| 0 <= i < Parameter::MAX_PARAMETERS implies #[trigger] self.index_map@[i]
            == slot_of(s, i) by {
            if exists|k: int| 0 <= k < s.len() && param_index(s[k]) == i {
                let k = choose|k: int| 0 <= k < s.len() && param_index(s[k]) == i;
                assert(self.reverse_map@[k] == s[k]);
            } else {
                if let Some(k) = self.index_map@[i] {
                    assert(param_index(s[k as int]) == i);
                }
            }
        }
        assert forall|i: u128| i < 128 implies (#[trigger] bit_set(self.active_mask, i) <==> exists|
            k: int,
        | 0 <= k < s.len() && param_index(s[k]) == i) by {
            if exists|k: int| 0 <= k < s.len() && param_index(s[k]) == i {
                let k = choose|k: int| 0 <= k < s.len() && param_index(s[k]) == i;
                assert(self.reverse_map@[k] == s[k]);
            }
            if bit_set(self.active_mask, i) {
                let k = self.index_map@[i as int]->0;
                assert(param_index(s[k as int]) == i);
            }
        }
        lemma_distinct_bounded(s);
    }

    /// An empty configuration: nothing tracked.
    pub fn new() -> (r: Self)
        ensures
            r@ == Seq::<Parameter>::empty(),
    {
        let mut index_map: Vec<Option<usize>> = Vec::new();
        let mut n: usize = 0;
        while n < Parameter::MAX_PARAMETERS
            invariant
                n <= Parameter::MAX_PARAMETERS,
                index_map@.len() == n,
                forall|i: int| 0 <= i < n ==> #[trigger] index_map@[i] == None::<usize>,
            decreases Parameter::MAX_PARAMETERS - n,
        {
            index_map.push(None);
            n = n + 1;
        }
        let reverse_map: Vec<Parameter> = Vec::new();
        assert forall|i: u128| i < 128 implies !#[trigger] bit_set(0u128, i) by {
            lemma_bit_of_zero(i);
        }
        ParameterConfig { active_mask: 0, parameter_count: 0, index_map, reverse_map }
    }

    /// The number of tracked parameters.
    pub fn parameter_count(&self) -> (r: usize)
        ensures
            r == self@.len(),
            r <= parameter_kinds(),
            self@.no_duplicates(),
    {
        proof {
            use_type_invariant(self);
            self.lemma_consistent();
        }
        self.parameter_count
    }

    /// Add a parameter to the set of tracked parameters; a parameter that is
    /// already tracked keeps its active index.
    pub fn add_parameter(self, p: Parameter) -> (r: Self)
        ensures
            r@ == tracked_with(self@, p),
    {
        proof {
            use_type_invariant(&self);
            self.lemma_consistent();
        }
        let idx = p.index();
        let bit = 1u128 << (idx as u128);
        let ghost s0 = self@;
        let ghost old_mask = self.active_mask;
        let ghost old_index_map = self.index_map@;
        proof {
            lemma_param_index_injective();
            if s0.contains(p) {
                let k = choose|k: int| 0 <= k < s0.len() && s0[k] == p;
                assert(self.reverse_map@[k] == p);
                assert(bit_set(self.active_mask, idx as u128));
            }
            if bit_set(self.active_mask, idx as u128) {
                let k = self.index_map@[idx as int]->0;
                assert(self.reverse_map@[k as int] == p);
                assert(s0[k as int] == p);
            }
            lemma_distinct_bounded(s0);
            lemma_distinct_bounded(s0.push(p));
        }
        if (self.active_mask & bit) == 0 {
            let ParameterConfig { active_mask, parameter_count, mut index_map, mut reverse_map } =
                self;
            let new_mask = active_mask | bit;
            index_map.set(idx, Some(parameter_count));
            reverse_map.push(p);
            let new_count = parameter_count + 1;
            proof {
                assert(reverse_map@ == s0.push(p));
                assert forall|i: u128| i < 128 implies (#[trigger] bit_set(new_mask, i) <==> (i
                    < Parameter::MAX_PARAMETERS && index_map@[i as int] is Some)) by {
                    lemma_bit_of_union(old_mask, idx as u128, i);
                    if i < Parameter::MAX_PARAMETERS {
                        assert(old_index_map[i as int] == slot_of(s0, i as int));
                    }
                    if bit_set(old_mask, i) {
                        let k = choose|k: int| 0 <= k < s0.len() && param_index(s0[k]) == i;
                        assert(param_index(s0[k]) < parameter_kinds());
                    }
                }
                assert forall|k: int| 0 <= k < reverse_map@.len() implies index_map@[param_index(
                    #[trigger] reverse_map@[k],
                )] == Some(k as usize) by {
                    if k < s0.len() {
                        assert(old_index_map[param_index(s0[k])] == slot_of(s0, param_index(s0[k])));
                        assert(param_index(s0[k]) != idx);
                        let kk = choose|kk: int|
                            0 <= kk < s0.len() && param_index(s0[kk]) == param_index(s0[k]);
                        assert(s0[kk] == s0[k]);
                    }
                }
                assert forall|i: int| 0 <= i < Parameter::MAX_PARAMETERS implies (#[trigger] index_map@[i] matches Some(k)
                    ==> k < reverse_map@.len() && param_index(reverse_map@[k as int]) == i) by {
                    if i != idx {
                        assert(index_map@[i] == old_index_map[i]);
                        assert(old_index_map[i] == slot_of(s0, i));
                    }
                }
            }
            ParameterConfig {
                active_mask: new_mask,
                parameter_count: new_count,
                index_map,
                reverse_map,
            }
        } else {
            self
        }
    }
}

impl<const ORDER: usize> ParameterConfig<ORDER> {
    /// Get the active index for a given parameter: `Some(k)` exactly when
    /// `p` is tracked at position `k`, `None` when `p` is not tracked.
    pub fn get_index(&self, p: Parameter) -> (r: Option<usize>)
        ensures
            r == slot_of(self@, param_index(p)),
            r matches Some(k) ==> k < self@.len() && self@[k as int] == p,
            r is None <==> !self@.contains(p),
    {
        proof {
            use_type_invariant(self);
            self.lemma_consistent();
            lemma_param_index_injective();
            if self@.contains(p) {
                let k = choose|k: int| 0 <= k < self@.len() && self@[k] == p;
                assert(self.reverse_map@[k] == p);
            }
        }
        let r = self.index_map[p.index()];
        proof {
            if let Some(k) = r {
                assert(self.reverse_map@[k as int] == p);
            }
        }
        r
    }

    /// Get the parameter for a given active index: `Some` of the parameter
    /// at that position, or `None` past the end.
    pub fn get_parameter(&self, i: usize) -> (r: Option<Parameter>)
        ensures
            i < self@.len() ==> r == Some(self@[i as int]),
            i >= self@.len() ==> r is None,
    {
        proof {
            use_type_invariant(self);
        }
        if i >= self.parameter_count() {
            None
        } else {
            Some(self.reverse_map[i])
        }
    }

    /// Return the currently tracked parameters, in order of parameter index.
    pub fn active_parameters(&self) -> (r: Vec<Parameter>)
        ensures
            forall|q: Parameter| r@.contains(q) <==> self@.contains(q),
            forall|a: int, b: int|
                0 <= a < b < r@.len() ==> param_index(r@[a]) < param_index(r@[b]),
    {
        proof {
            use_type_invariant(self);
            self.lemma_consistent();
            lemma_param_index_injective();
        }
        let mut parameters: Vec<Parameter> = Vec::with_capacity(self.parameter_count);
        for i in 0..Parameter::MAX_PARAMETERS
            invariant
                mask_of(self.active_mask, self@),
                forall|q: Parameter|
                    parameters@.contains(q) <==> (self@.contains(q) && param_index(q) < i),
                forall|a: int, b: int|
                    0 <= a < b < parameters@.len() ==> param_index(parameters@[a]) < param_index(
                        parameters@[b],
                    ),
                forall|a: int| 0 <= a < parameters@.len() ==> param_index(parameters@[a]) < i,
        {
            let ghost before = parameters@;
            if (self.active_mask & (1u128 << (i as u128))) != 0 {
                assert(bit_set(self.active_mask, i as u128));
                let ghost k = choose|k: int| 0 <= k < self@.len() && param_index(self@[k]) == i;
                assert(param_at(param_index(self@[k])) == Some(self@[k]));
                let p = Parameter::try_from(i).unwrap();
                parameters.push(p);
                proof {
                    assert(self@[k] == p);
                    assert(before.contains(p) ==> param_index(p) < i);
                    assert forall|q: Parameter| parameters@.contains(q) <==> (self@.contains(q)
                        && param_index(q) < i + 1) by {
                        if parameters@.contains(q) && q != p {
                            let a = choose|a: int| 0 <= a < parameters@.len() && parameters@[a] == q;
                            assert(before[a] == q);
                            assert(before.contains(q));
                        }
                        if self@.contains(q) && param_index(q) == i {
                            assert(param_index(p) == i);
                            assert(q == p);
                        }
                        if self@.contains(q) && param_index(q) < i + 1 && param_index(q) < i {
                            assert(before.contains(q));
                            let a = choose|a: int| 0 <= a < before.len() && before[a] == q;
                            assert(parameters@[a] == q);
                        }
                        if q == p {
                            assert(parameters@[before.len() as int] == q);
                        }
                    }
                }
            } else {
                proof {
                    assert(!bit_set(self.active_mask, i as u128));
                    assert forall|q: Parameter| self@.contains(q) implies param_index(q) != i by {
                        let k = choose|k: int| 0 <= k < self@.len() && self@[k] == q;
                        assert(param_index(self@[k]) == param_index(q));
                    }
                }
            }
        }
        proof {
            assert forall|q: Parameter| self@.contains(q) implies param_index(q) < Parameter::MAX_PARAMETERS by {
            }
        }
        parameters
    }

    /// Track the given parameter.
    pub fn with_parameter(self, p: Parameter) -> (r: Self)
        ensures
            r@ == tracked_with(self@, p),
    {
        self.add_parameter(p)
    }

    /// Track derivatives with respect to time.
    pub fn with_time(self) -> (r: Self)
        ensures
            r@ == tracked_with(self@, Parameter::Time),
    {
        self.add_parameter(Parameter::Time)
    }

    /// Track derivatives with respect to the initial state (position and
    /// velocity, in that order).
    pub fn with_initial_state(self) -> (r: Self)
        ensures
            r@ == initial_state_tracked(self@),
    {
        self.add_parameter(Parameter::X).add_parameter(Parameter::Y).add_parameter(
            Parameter::Z,
        ).add_parameter(Parameter::VX).add_parameter(Parameter::VY).add_parameter(Parameter::VZ)
    }

    /// The bitmask of tracked parameters: bit `param_index(p)` is set
    /// exactly when `p` is tracked.
    pub fn active_mask(&self) -> (r: u128)
        ensures
            mask_of(r, self@),
    {
        proof {
            use_type_invariant(self);
            self.lemma_consistent();
        }
        self.active_mask
    }

    /// The map from parameter index to active index, one slot per possible
    /// parameter index.
    pub fn index_map(&self) -> (r: &Vec<Option<usize>>)
        ensures
            r@.len() == Parameter::MAX_PARAMETERS,
            forall|i: int| 0 <= i < Parameter::MAX_PARAMETERS ==> #[trigger] r@[i] == slot_of(self@, i),
    {
        proof {
            use_type_invariant(self);
            self.lemma_consistent();
        }
        &self.index_map
    }

    /// The tracked parameters in order of active index.
    pub fn reverse_map(&self) -> (r: &Vec<Parameter>)
        ensures
            r@ == self@,
    {
        &self.reverse_map
    }
}

/// Tracking a parameter keeps the tracked sequence duplicate free, keeps
/// every earlier parameter at its active index, gives a newly tracked
/// parameter the next active index, and tracking the same parameter twice
/// is the same as tracking it once.
pub proof fn lemma_tracked_with(s: Seq<Parameter>, p: Parameter)
    requires
        s.no_duplicates(),
    ensures
        tracked_with(s, p).no_duplicates(),
        tracked_with(s, p).contains(p),
        tracked_with(tracked_with(s, p), p) == tracked_with(s, p),
        forall|k: int| 0 <= k < s.len() ==> #[trigger] tracked_with(s, p)[k] == s[k],
        tracked_with(s, p).len() == s.len() + (if s.contains(p) { 0int } else { 1int }),
        !s.contains(p) ==> tracked_with(s, p)[s.len() as int] == p,
{
    let t = tracked_with(s, p);
    if !s.contains(p) {
        assert(t[s.len() as int] == p);
        assert forall|a: int, b: int| 0 <= a < t.len() && 0 <= b < t.len() && a != b implies t[a]
            != t[b] by {
            if a < s.len() && b == s.len() {
                assert(s.contains(t[a]));
            }
            if b < s.len() && a == s.len() {
                assert(s.contains(t[b]));
            }
        }
    }
    assert(t.contains(p)) by {
        if s.contains(p) {
        } else {
            assert(t[s.len() as int] == p);
        }
    }
}

/// The active index of a tracked parameter and the parameter at an active
/// index are inverse to each other: `get_index` and `get_parameter`
/// round-trip.
pub proof fn lemma_active_index_round_trip(s: Seq<Parameter>, p: Parameter, k: int)
    requires
        s.no_duplicates(),
    ensures
        0 <= k < s.len() ==> slot_of(s, param_index(s[k])) == Some(k as usize),
        slot_of(s, param_index(p)) matches Some(j) ==> j < s.len() && s[j as int] == p,
        slot_of(s, param_index(p)) is None <==> !s.contains(p),
{
    lemma_param_index_injective();
    lemma_distinct_bounded(s);
    if 0 <= k < s.len() {
        let j = choose|j: int| 0 <= j < s.len() && param_index(s[j]) == param_index(s[k]);
        assert(s[j] == s[k]);
    }
    if s.contains(p) {
        let j = choose|j: int| 0 <= j < s.len() && s[j] == p;
        assert(param_index(s[j]) == param_index(p));
    }
    if slot_of(s, param_index(p)) is Some {
        let j = choose|j: int| 0 <= j < s.len() && param_index(s[j]) == param_index(p);
        assert(s[j] == p);
    }
}

/// Distinct parameters have distinct indices.
proof fn lemma_param_index_injective()
    ensures
        forall|p: Parameter| #[trigger] param_at(param_index(p)) == Some(p),
        forall|p: Parameter, q: Parameter| param_index(p) == param_index(q) ==> p == q,
        forall|p: Parameter| 0 <= #[trigger] param_index(p) < parameter_kinds(),
{
    assert forall|p: Parameter, q: Parameter| param_index(p) == param_index(q) implies p == q by {
        assert(param_at(param_index(p)) == Some(p));
        assert(param_at(param_index(q)) == Some(q));
    }
}

/// A duplicate-free sequence of parameters has at most as many entries as
/// there are parameters.
proof fn lemma_distinct_bounded(s: Seq<Parameter>)
    ensures
        s.no_duplicates() ==> s.len() <= parameter_kinds(),
{
    if s.no_duplicates() {
        let f = |p: Parameter| param_index(p);
        let img = s.map_values(f);
        assert forall|a: int, b: int| 0 <= a < img.len() && 0 <= b < img.len() && a != b implies img[a]
            != img[b] by {
            if img[a] == img[b] {
                assert(param_at(param_index(s[a])) == Some(s[a]));
                assert(param_at(param_index(s[b])) == Some(s[b]));
            }
        }
        let all = Set::new(|i: int| 0 <= i < parameter_kinds());
        assert(img.to_set().subset_of(all));
        img.unique_seq_to_set();
        assert(all =~= vstd::set_lib::set_int_range(0, parameter_kinds()));
        vstd::set_lib::lemma_int_range(0, parameter_kinds());
        vstd::set_lib::lemma_len_subset(img.to_set(), all);
    }
}

proof fn lemma_bit_of_zero(i: u128)
    by (bit_vector)
    requires
        i < 128,
    ensures
        0u128 & (1u128 << i) == 0,
{
}

proof fn lemma_bit_of_union(mask: u128, b: u128, i: u128)
    by (bit_vector)
    requires
        b < 128,
        i < 128,
    ensures
        ((mask | (1u128 << b)) & (1u128 << i) != 0) <==> ((mask & (1u128 << i) != 0) || i == b),
{
}

} // verus!
