//! What a compilation knows while it runs: the names that are bound,
//! scope by scope, the numbers that are taken in each namespace of
//! identifiers, and the reactions that are registered.

use vstd::prelude::*;
use crate::ast::{lemma_block_view, CompoundStatement, StatementView};
use crate::error::{failure, CompileError, ErrorKind};
use crate::native::{values_view, PropertyValue, PropertyValueView, TriggerKind};
use crate::number::{Number, NumberView};

verus! {

broadcast use lemma_block_view;

/// What a variable evaluates to.
#[derive(Debug, PartialEq, Eq)]
pub enum Value {
    Number(Number),
    Bool(bool),
    Id { class_name: String, number: u16 },
    Block(CompoundStatement),
    Native(TriggerKind),
}

/// The mathematical content of a [`Value`].
pub ghost enum ValueView {
    Number(NumberView),
    Bool(bool),
    Id { class_name: Seq<char>, number: u16 },
    Block(Seq<StatementView>),
    Native(TriggerKind),
}

impl View for Value {
    type V = ValueView;

    open spec fn view(&self) -> ValueView {
        match self {
            Value::Number(n) => ValueView::Number(n@),
            Value::Bool(b) => ValueView::Bool(*b),
            Value::Id { class_name, number } => ValueView::Id {
                class_name: class_name@,
                number: *number,
            },
            Value::Block(c) => ValueView::Block(c@),
            Value::Native(k) => ValueView::Native(*k),
        }
    }
}

impl Clone for Value {
    fn clone(&self) -> (r: Value)
        ensures
            r@ == self@,
    {
        match self {
            Value::Number(n) => Value::Number(n.clone()),
            Value::Bool(b) => Value::Bool(*b),
            Value::Id { class_name, number } => Value::Id {
                class_name: class_name.clone(),
                number: *number,
            },
            Value::Block(c) => Value::Block(c.clone()),
            Value::Native(k) => Value::Native(*k),
        }
    }
}

/// The views of a sequence of values.
pub open spec fn value_views(s: Seq<Value>) -> Seq<ValueView> {
    Seq::new(s.len(), |i: int| s[i]@)
}

/// A block that is bound to an event: the name of the event and the
/// arguments that it was bound with.
#[derive(Debug, PartialEq, Eq)]
pub struct Reaction {
    pub symbol: String,
    pub pattern: Vec<PropertyValue>,
}

/// The mathematical content of a [`Reaction`].
pub ghost struct ReactionView {
    pub symbol: Seq<char>,
    pub pattern: Seq<PropertyValueView>,
}

impl View for Reaction {
    type V = ReactionView;

    open spec fn view(&self) -> ReactionView {
        ReactionView { symbol: self.symbol@, pattern: values_view(self.pattern@) }
    }
}

/// The first number from `from` on that is not in `taken`; 65536 where
/// every number up to 65535 is.
pub open spec fn first_free(taken: Set<nat>, from: nat) -> nat
    decreases 65536 - from,
{
    if from < 65536 && taken.contains(from) {
        first_free(taken, from + 1)
    } else {
        from
    }
}

/// What the name `name` is bound to in the innermost of `scopes` that
/// binds it.
pub open spec fn resolve_in(scopes: Seq<Map<Seq<char>, ValueView>>, name: Seq<char>) -> Option<
    ValueView,
>
    decreases scopes.len(),
{
    if scopes.len() == 0 {
        None
    } else if scopes.last().dom().contains(name) {
        Some(scopes.last()[name])
    } else {
        resolve_in(scopes.drop_last(), name)
    }
}

/// The mathematical content of an [`Environment`].
pub ghost struct EnvironmentView {
    /// The open scopes, the outermost first: what each binds.
    pub scopes: Seq<Map<Seq<char>, ValueView>>,
    /// The numbers that are taken, by namespace.
    pub taken: Map<Seq<char>, Set<nat>>,
    /// The reactions that are registered, in the order in which they
    /// were.
    pub reactions: Seq<ReactionView>,
}

impl EnvironmentView {
    /// The environment that a compilation starts with: one scope that
    /// binds nothing, no number taken, no reaction.
    pub open spec fn fresh() -> EnvironmentView {
        EnvironmentView {
            scopes: seq![Map::<Seq<char>, ValueView>::empty()],
            taken: Map::empty(),
            reactions: Seq::empty(),
        }
    }

    /// With one more scope, which binds nothing.
    pub open spec fn enter_scope(self) -> EnvironmentView {
        EnvironmentView { scopes: self.scopes.push(Map::empty()), ..self }
    }

    /// Without the innermost scope; the outermost scope stays.
    pub open spec fn exit_scope(self) -> EnvironmentView {
        if self.scopes.len() > 1 {
            EnvironmentView { scopes: self.scopes.drop_last(), ..self }
        } else {
            self
        }
    }

    /// With `name` bound to `value` in the innermost scope.
    pub open spec fn define(self, name: Seq<char>, value: ValueView) -> EnvironmentView {
        if self.scopes.len() == 0 {
            EnvironmentView { scopes: seq![Map::empty().insert(name, value)], ..self }
        } else {
            EnvironmentView {
                scopes: self.scopes.update(
                    self.scopes.len() - 1,
                    self.scopes.last().insert(name, value),
                ),
                ..self
            }
        }
    }

    /// What `name` is bound to: in the innermost scope that binds it.
    pub open spec fn resolve(self, name: Seq<char>) -> Option<ValueView> {
        resolve_in(self.scopes, name)
    }

    /// The numbers that are taken in the namespace `class_name`.
    pub open spec fn taken_in(self, class_name: Seq<char>) -> Set<nat> {
        if self.taken.dom().contains(class_name) {
            self.taken[class_name]
        } else {
            Set::empty()
        }
    }

    /// With `number` taken in the namespace `class_name`.
    pub open spec fn reserve(self, class_name: Seq<char>, number: nat) -> EnvironmentView {
        EnvironmentView {
            taken: self.taken.insert(class_name, self.taken_in(class_name).insert(number)),
            ..self
        }
    }

    /// The smallest number from 1 on that is free in the namespace
    /// `class_name`; 65536 where none up to 65535 is.
    pub open spec fn next_free(self, class_name: Seq<char>) -> nat {
        first_free(self.taken_in(class_name), 1)
    }

    /// The environment after a number was asked of the namespace
    /// `class_name`: the smallest free number is taken, where there is
    /// one.
    pub open spec fn after_allocate(self, class_name: Seq<char>) -> EnvironmentView {
        if self.next_free(class_name) <= u16::MAX {
            self.reserve(class_name, self.next_free(class_name))
        } else {
            self
        }
    }

    /// The number that the namespace `class_name` gives out next, where
    /// it has one left.
    pub open spec fn allocated(self, class_name: Seq<char>) -> Option<u16> {
        if self.next_free(class_name) <= u16::MAX {
            Some(self.next_free(class_name) as u16)
        } else {
            None
        }
    }

    /// With one more reaction.
    pub open spec fn register(self, reaction: ReactionView) -> EnvironmentView {
        EnvironmentView { reactions: self.reactions.push(reaction), ..self }
    }
}

/// The first free number is free, and every number before it, from
/// `from` on, is taken.
pub proof fn lemma_first_free_is_smallest(taken: Set<nat>, from: nat)
    requires
        from <= 65536,
    ensures
        from <= first_free(taken, from) <= 65536,
        first_free(taken, from) < 65536 ==> !taken.contains(first_free(taken, from)),
        forall|k: nat| from <= k < first_free(taken, from) ==> taken.contains(k),
    decreases 65536 - from,
{
    if from < 65536 && taken.contains(from) {
        lemma_first_free_is_smallest(taken, from + 1);
    }
}

/// Marking a number as taken twice comes to the same as marking it
/// once.
pub proof fn lemma_reserve_twice(env: EnvironmentView, class_name: Seq<char>, number: nat)
    ensures
        env.reserve(class_name, number).reserve(class_name, number) == env.reserve(
            class_name,
            number,
        ),
{
    let once = env.reserve(class_name, number);
    let twice = once.reserve(class_name, number);
    assert(once.taken_in(class_name).insert(number) =~= once.taken_in(class_name));
    assert(twice.taken =~= once.taken);
}

/// Marking a number as taken leaves every other namespace, and every
/// other number of the same namespace, as it was.
pub proof fn lemma_reserve_frame(
    env: EnvironmentView,
    class_name: Seq<char>,
    number: nat,
    other_class: Seq<char>,
    other: nat,
)
    ensures
        env.reserve(class_name, number).taken_in(class_name).contains(number),
        other_class != class_name ==> env.reserve(class_name, number).taken_in(other_class)
            == env.taken_in(other_class),
        other != number ==> (env.reserve(class_name, number).taken_in(class_name).contains(other)
            <==> env.taken_in(class_name).contains(other)),
        env.reserve(class_name, number).scopes == env.scopes,
        env.reserve(class_name, number).reactions == env.reactions,
{
}

/// A namespace gives out the smallest number from 1 on that was free,
/// marks it as taken, and gives out a larger one the next time: no
/// number is given out twice.
pub proof fn lemma_allocate_is_fresh(env: EnvironmentView, class_name: Seq<char>)
    requires
        env.allocated(class_name) is Some,
    ensures
        env.allocated(class_name)->0 >= 1,
        !env.taken_in(class_name).contains(env.allocated(class_name)->0 as nat),
        forall|k: nat|
            1 <= k < env.allocated(class_name)->0 ==> env.taken_in(class_name).contains(k),
        env.after_allocate(class_name).taken_in(class_name) == env.taken_in(class_name).insert(
            env.allocated(class_name)->0 as nat,
        ),
        env.after_allocate(class_name).next_free(class_name) > env.next_free(class_name),
{
    let taken = env.taken_in(class_name);
    let n = env.next_free(class_name);
    lemma_first_free_is_smallest(taken, 1);
    let after = env.after_allocate(class_name);
    assert(after.taken_in(class_name) =~= taken.insert(n));
    lemma_first_free_is_smallest(after.taken_in(class_name), 1);
    let m = after.next_free(class_name);
    if m <= n {
        if m < n {
            assert(taken.contains(m));
        }
        assert(after.taken_in(class_name).contains(m));
    }
}

/// In an environment that a compilation starts with, every namespace
/// gives out 1 first.
pub proof fn lemma_fresh_allocates_one(class_name: Seq<char>)
    ensures
        EnvironmentView::fresh().allocated(class_name) == Some(1u16),
{
    lemma_first_free(Set::<nat>::empty(), 1, 1);
}

/// One binding of a scope. A scope is the list of its bindings in the
/// order in which they were made; the last binding of a name counts.
struct Binding {
    name: String,
    value: Value,
}

/// One namespace of identifiers: every number from 1 up to `next`, not
/// counting `next`, is taken, and so is every number in `reserved`.
struct Namespace {
    class_name: String,
    next: u32,
    reserved: Vec<u16>,
}

/// The state of a compilation.
pub struct Environment {
    /// The open scopes, the outermost first.
    scopes: Vec<Vec<Binding>>,
    /// The namespaces that were used, each under its own name once.
    namespaces: Vec<Namespace>,
    /// The reactions, in the order in which they were registered.
    reactions: Vec<Reaction>,
}

/// What a scope binds: each name to the value of its last binding.
spec fn frame_view(s: Seq<Binding>) -> Map<Seq<char>, ValueView>
    decreases s.len(),
{
    if s.len() == 0 {
        Map::empty()
    } else {
        frame_view(s.drop_last()).insert(s.last().name@, s.last().value@)
    }
}

/// The numbers that a namespace holds as taken: those below its
/// counter, from 1 on, and those that were reserved by name.
spec fn taken_of(ns: Namespace) -> Set<nat> {
    Set::new(
        |k: nat| (1 <= k < ns.next) || (k <= u16::MAX && ns.reserved@.contains(k as u16)),
    )
}

/// What is taken, by namespace: for each name, what the last namespace
/// of that name holds as taken.
spec fn namespaces_view(s: Seq<Namespace>) -> Map<Seq<char>, Set<nat>>
    decreases s.len(),
{
    if s.len() == 0 {
        Map::empty()
    } else {
        namespaces_view(s.drop_last()).insert(s.last().class_name@, taken_of(s.last()))
    }
}

/// What each of the scopes binds.
spec fn scopes_view(s: Seq<Vec<Binding>>) -> Seq<Map<Seq<char>, ValueView>> {
    Seq::new(s.len(), |i: int| frame_view(s[i]@))
}

/// The mathematical content of each of the reactions.
spec fn reactions_view(s: Seq<Reaction>) -> Seq<ReactionView> {
    Seq::new(s.len(), |i: int| s[i]@)
}

impl View for Environment {
    type V = EnvironmentView;

    closed spec fn view(&self) -> EnvironmentView {
        EnvironmentView {
            scopes: scopes_view(self.scopes@),
            taken: namespaces_view(self.namespaces@),
            reactions: reactions_view(self.reactions@),
        }
    }
}

/// A binding of a name that no later binding of the scope replaces is
/// what the scope binds the name to.
proof fn lemma_frame_found(s: Seq<Binding>, name: Seq<char>, i: int)
    requires
        0 <= i < s.len(),
        s[i].name@ == name,
        forall|j: int| i < j < s.len() ==> s[j].name@ != name,
    ensures
        frame_view(s).dom().contains(name),
        frame_view(s)[name] == s[i].value@,
    decreases s.len(),
{
    if i < s.len() - 1 {
        lemma_frame_found(s.drop_last(), name, i);
    }
}

/// A scope without a binding of a name does not bind it.
proof fn lemma_frame_absent(s: Seq<Binding>, name: Seq<char>)
    requires
        forall|j: int| 0 <= j < s.len() ==> s[j].name@ != name,
    ensures
        !frame_view(s).dom().contains(name),
    decreases s.len(),
{
    if s.len() > 0 {
        lemma_frame_absent(s.drop_last(), name);
    }
}

/// A namespace of a name that no later one shares holds what is taken
/// under that name.
proof fn lemma_namespace_found(s: Seq<Namespace>, name: Seq<char>, i: int)
    requires
        0 <= i < s.len(),
        s[i].class_name@ == name,
        forall|j: int| i < j < s.len() ==> s[j].class_name@ != name,
    ensures
        namespaces_view(s).dom().contains(name),
        namespaces_view(s)[name] == taken_of(s[i]),
    decreases s.len(),
{
    if i < s.len() - 1 {
        lemma_namespace_found(s.drop_last(), name, i);
    }
}

/// Where no namespace has a name, nothing is taken under it.
proof fn lemma_namespace_absent(s: Seq<Namespace>, name: Seq<char>)
    requires
        forall|j: int| 0 <= j < s.len() ==> s[j].class_name@ != name,
    ensures
        !namespaces_view(s).dom().contains(name),
    decreases s.len(),
{
    if s.len() > 0 {
        lemma_namespace_absent(s.drop_last(), name);
    }
}

/// Replacing the last namespace of a name changes what is taken
/// under that name, and nothing else.
proof fn lemma_namespace_update(s: Seq<Namespace>, i: int, ns: Namespace)
    requires
        0 <= i < s.len(),
        s[i].class_name@ == ns.class_name@,
        forall|j: int| i < j < s.len() ==> s[j].class_name@ != ns.class_name@,
    ensures
        namespaces_view(s.update(i, ns)) == namespaces_view(s).insert(
            ns.class_name@,
            taken_of(ns),
        ),
    decreases s.len(),
{
    let t = s.update(i, ns);
    if i == s.len() - 1 {
        assert(t.drop_last() =~= s.drop_last());
        assert(namespaces_view(t) =~= namespaces_view(s).insert(ns.class_name@, taken_of(ns)));
    } else {
        lemma_namespace_update(s.drop_last(), i, ns);
        assert(t.drop_last() =~= s.drop_last().update(i, ns));
        assert(t.last() == s.last());
        assert(namespaces_view(t) =~= namespaces_view(s).insert(ns.class_name@, taken_of(ns)));
    }
}

/// Every number from `from` up to `n` is taken and `n` is not: then
/// `n` is the first free number from `from` on.
proof fn lemma_first_free(taken: Set<nat>, from: nat, n: nat)
    requires
        from <= n <= 65536,
        forall|k: nat| from <= k < n ==> taken.contains(k),
        n == 65536 || !taken.contains(n),
    ensures
        first_free(taken, from) == n,
    decreases n - from,
{
    if from < n {
        lemma_first_free(taken, from + 1, n);
    }
}

/// A list with one more number holds that number and what it held.
proof fn lemma_push_contains(s: Seq<u16>, x: u16)
    ensures
        forall|y: u16| s.push(x).contains(y) <==> (s.contains(y) || y == x),
{
    assert forall|y: u16| s.push(x).contains(y) implies (s.contains(y) || y == x) by {
        let j = choose|j: int| 0 <= j < s.push(x).len() && s.push(x)[j] == y;
        if j < s.len() {
            assert(s[j] == y);
        }
    }
    assert forall|y: u16| (s.contains(y) || y == x) implies s.push(x).contains(y) by {
        if s.contains(y) {
            let j = choose|j: int| 0 <= j < s.len() && s[j] == y;
            assert(s.push(x)[j] == y);
        } else {
            assert(s.push(x)[s.len() as int] == y);
        }
    }
}

/// The place of the last binding of `name` in a scope.
fn find_binding(frame: &Vec<Binding>, name: &String) -> (r: Option<usize>)
    ensures
        match r {
            Some(i) => i < frame.len() && frame[i as int].name@ == name@ && forall|j: int|
                i < j < frame.len() ==> frame[j].name@ != name@,
            None => forall|j: int| 0 <= j < frame.len() ==> frame[j].name@ != name@,
        },
{
    let mut k: usize = frame.len();
    while k > 0
        invariant
            k <= frame.len(),
            forall|j: int| k <= j < frame.len() ==> frame[j].name@ != name@,
        decreases k,
    {
        k = k - 1;
        if frame[k].name == *name {
            return Some(k);
        }
    }
    None
}

/// The place of the last namespace of the name `name`.
fn find_namespace(namespaces: &Vec<Namespace>, name: &String) -> (r: Option<usize>)
    ensures
        match r {
            Some(i) => i < namespaces.len() && namespaces[i as int].class_name@ == name@
                && forall|j: int|
                i < j < namespaces.len() ==> namespaces[j].class_name@ != name@,
            None => forall|j: int|
                0 <= j < namespaces.len() ==> namespaces[j].class_name@ != name@,
        },
{
    let mut k: usize = namespaces.len();
    while k > 0
        invariant
            k <= namespaces.len(),
            forall|j: int| k <= j < namespaces.len() ==> namespaces[j].class_name@ != name@,
        decreases k,
    {
        k = k - 1;
        if namespaces[k].class_name == *name {
            return Some(k);
        }
    }
    None
}

/// Whether `number` is among `numbers`.
fn holds(numbers: &Vec<u16>, number: u16) -> (r: bool)
    ensures
        r == numbers@.contains(number),
{
    let mut i: usize = 0;
    while i < numbers.len()
        invariant
            i <= numbers.len(),
            forall|j: int| 0 <= j < i ==> numbers[j] != number,
        decreases numbers.len() - i,
    {
        if numbers[i] == number {
            return true;
        }
        i = i + 1;
    }
    false
}

impl Environment {
    /// The environment that a compilation starts with.
    pub fn new() -> (env: Environment)
        ensures
            env@ == EnvironmentView::fresh(),
    {
        let mut scopes: Vec<Vec<Binding>> = Vec::new();
        scopes.push(Vec::new());
        let env = Environment { scopes, namespaces: Vec::new(), reactions: Vec::new() };
        assert(env@.scopes =~= EnvironmentView::fresh().scopes);
        assert(env@.reactions =~= EnvironmentView::fresh().reactions);
        env
    }

    /// The number of open scopes.
    pub fn depth(&self) -> (d: usize)
        ensures
            d == self@.scopes.len(),
    {
        self.scopes.len()
    }

    /// The number of registered reactions.
    pub fn reaction_count(&self) -> (n: usize)
        ensures
            n == self@.reactions.len(),
    {
        self.reactions.len()
    }

    /// Opens a scope.
    pub fn enter_scope(&mut self)
        ensures
            final(self)@ == old(self)@.enter_scope(),
    {
        self.scopes.push(Vec::new());
        assert(final(self)@.scopes =~= old(self)@.enter_scope().scopes);
    }

    /// Closes the innermost scope, unless it is the outermost.
    pub fn exit_scope(&mut self)
        ensures
            final(self)@ == old(self)@.exit_scope(),
    {
        if self.scopes.len() > 1 {
            self.scopes.pop();
            assert(final(self)@.scopes =~= old(self)@.exit_scope().scopes);
        }
    }

    /// Binds `name` to `value` in the innermost scope. A binding of
    /// `name` in that scope is replaced, one in an outer scope is
    /// shadowed.
    pub fn define(&mut self, name: String, value: Value)
        ensures
            final(self)@ == old(self)@.define(name@, value@),
    {
        let mut frame = match self.scopes.pop() {
            Some(frame) => frame,
            None => Vec::new(),
        };
        let ghost before = frame@;
        frame.push(Binding { name, value });
        assert(frame@.drop_last() =~= before);
        assert(frame_view(frame@) == frame_view(before).insert(name@, value@));
        self.scopes.push(frame);
        assert(old(self)@.scopes.len() > 0 ==> old(self)@.scopes.last() == frame_view(before));
        assert(final(self)@.scopes =~= old(self)@.define(name@, value@).scopes);
    }

    /// What `name` is bound to, or the failure that it is unbound.
    pub fn resolve(&self, name: &String) -> (r: Result<Value, CompileError>)
        ensures
            match r {
                Ok(v) => self@.resolve(name@) == Some(v@),
                Err(e) => self@.resolve(name@).is_none() && e@ == failure(
                    ErrorKind::UnboundSymbol,
                    name@,
                    self@.scopes.len(),
                ),
            },
    {
        let ghost scopes = self@.scopes;
        let mut k: usize = self.scopes.len();
        assert(scopes.take(k as int) =~= scopes);
        while k > 0
            invariant
                k <= self.scopes.len(),
                scopes == self@.scopes,
                resolve_in(scopes.take(k as int), name@) == resolve_in(scopes, name@),
            decreases k,
        {
            k = k - 1;
            assert(scopes.take(k + 1).drop_last() =~= scopes.take(k as int));
            assert(scopes.take(k + 1).last() == frame_view(self.scopes[k as int]@));
            match find_binding(&self.scopes[k], name) {
                Some(i) => {
                    proof {
                        lemma_frame_found(self.scopes[k as int]@, name@, i as int);
                    }
                    return Ok(self.scopes[k][i].value.clone());
                },
                None => {
                    proof {
                        lemma_frame_absent(self.scopes[k as int]@, name@);
                    }
                },
            }
        }
        Err(CompileError::new(ErrorKind::UnboundSymbol, name, self.scopes.len()))
    }

    /// Marks `number` as taken in the namespace `class_name`.
    pub fn reserve_explicit(&mut self, class_name: &String, number: u16)
        ensures
            final(self)@ == old(self)@.reserve(class_name@, number as nat),
    {
        match find_namespace(&self.namespaces, class_name) {
            None => {
                proof {
                    lemma_namespace_absent(self.namespaces@, class_name@);
                }
                let mut reserved: Vec<u16> = Vec::new();
                reserved.push(number);
                let ns = Namespace { class_name: class_name.clone(), next: 1, reserved };
                assert(ns.reserved@[0] == number);
                assert(taken_of(ns) =~= Set::<nat>::empty().insert(number as nat));
                self.namespaces.push(ns);
                assert(self.namespaces@.drop_last() =~= old(self).namespaces@);
            },
            Some(i) => {
                proof {
                    lemma_namespace_found(self.namespaces@, class_name@, i as int);
                }
                let mut ns = self.namespaces.remove(i);
                let ghost before = ns;
                if !holds(&ns.reserved, number) {
                    ns.reserved.push(number);
                    proof {
                        lemma_push_contains(before.reserved@, number);
                    }
                }
                assert(taken_of(ns) =~= taken_of(before).insert(number as nat));
                proof {
                    lemma_namespace_update(old(self).namespaces@, i as int, ns);
                }
                self.namespaces.insert(i, ns);
                assert(self.namespaces@ =~= old(self).namespaces@.update(i as int, ns));
            },
        }
        assert(final(self)@.taken =~= old(self)@.reserve(class_name@, number as nat).taken);
    }

    /// Takes the smallest free number of the namespace `class_name`,
    /// from 1 on, and returns it; or the failure that none is left.
    pub fn allocate(&mut self, class_name: &String) -> (r: Result<u16, CompileError>)
        ensures
            final(self)@ == old(self)@.after_allocate(class_name@),
            match r {
                Ok(n) => old(self)@.allocated(class_name@) == Some(n),
                Err(e) => old(self)@.allocated(class_name@).is_none() && e@ == failure(
                    ErrorKind::NamespaceExhausted,
                    class_name@,
                    old(self)@.scopes.len(),
                ),
            },
    {
        match find_namespace(&self.namespaces, class_name) {
            None => {
                proof {
                    lemma_namespace_absent(self.namespaces@, class_name@);
                    lemma_first_free(Set::<nat>::empty(), 1, 1);
                }
                let ns = Namespace {
                    class_name: class_name.clone(),
                    next: 2,
                    reserved: Vec::new(),
                };
                assert(taken_of(ns) =~= Set::<nat>::empty().insert(1nat));
                self.namespaces.push(ns);
                assert(self.namespaces@.drop_last() =~= old(self).namespaces@);
                assert(final(self)@.taken =~= old(self)@.after_allocate(class_name@).taken);
                Ok(1)
            },
            Some(i) => {
                proof {
                    lemma_namespace_found(self.namespaces@, class_name@, i as int);
                }
                let ghost taken = taken_of(self.namespaces[i as int]);
                let mut n: u32 = if self.namespaces[i].next == 0 {
                    1
                } else {
                    self.namespaces[i].next
                };
                while n <= 65535 && holds(&self.namespaces[i].reserved, n as u16)
                    invariant
                        1 <= n,
                        self.namespaces[i as int].next <= n,
                        i < self.namespaces.len(),
                        taken == taken_of(self.namespaces[i as int]),
                        forall|k: nat| 1 <= k < n && k <= 65535 ==> taken.contains(k),
                    decreases 65536 - n,
                {
                    n = n + 1;
                }
                if n > 65535 {
                    proof {
                        lemma_first_free(taken, 1, 65536);
                    }
                    return Err(
                        CompileError::new(
                            ErrorKind::NamespaceExhausted,
                            class_name,
                            self.scopes.len(),
                        ),
                    );
                }
                proof {
                    lemma_first_free(taken, 1, n as nat);
                }
                let mut ns = self.namespaces.remove(i);
                let ghost before = ns;
                ns.next = n + 1;
                assert(taken_of(ns) =~= taken_of(before).insert(n as nat));
                proof {
                    lemma_namespace_update(old(self).namespaces@, i as int, ns);
                }
                self.namespaces.insert(i, ns);
                assert(self.namespaces@ =~= old(self).namespaces@.update(i as int, ns));
                assert(final(self)@.taken =~= old(self)@.after_allocate(class_name@).taken);
                Ok(n as u16)
            },
        }
    }

    /// Registers a reaction and returns its place among the reactions.
    pub fn register(&mut self, reaction: Reaction) -> (place: usize)
        ensures
            final(self)@ == old(self)@.register(reaction@),
            place == old(self)@.reactions.len(),
    {
        let place = self.reactions.len();
        self.reactions.push(reaction);
        assert(final(self)@.reactions =~= old(self)@.register(reaction@).reactions);
        place
    }
}

} // verus!
