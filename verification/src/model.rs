use vstd::prelude::*;
use crate::stmt::StmtView;
use crate::value::ValueView;

verus! {

/// One scope: its bindings, and the scope around it.
pub struct ScopeView {
    pub values: Map<Seq<char>, ValueView>,
    pub enclosing: Option<usize>,
}

/// A function of the program.
pub struct FunctionView {
    pub name: Seq<char>,
    pub params: Seq<Seq<char>>,
    pub body: Seq<StmtView>,
    pub parent_env: usize,
}

/// A command of the host.
pub struct NativeView {
    pub name: Seq<char>,
    pub arity: usize,
    pub command: Seq<char>,
}

pub struct ClassView {
    pub name: Seq<char>,
    pub methods: Map<Seq<char>, usize>,
    pub superclass: Option<usize>,
}

pub struct InstanceView {
    pub class: usize,
    pub fields: Map<Seq<char>, ValueView>,
}

/// What the host answered to one question: a number, or a text.
pub struct Answer {
    pub number: u64,
    pub text: Seq<char>,
}

/// The answers of the host, in the order of the questions.
pub type Oracle = spec_fn(nat) -> Answer;

/// The state of a running program: its scopes and which of them is
/// current, the hop counts of the resolver, the functions, commands,
/// classes and instances that were made, what was written, the value that
/// a `retorna` left for the call around it, and the number of questions
/// that the host was asked.
pub struct Store {
    pub scopes: Seq<ScopeView>,
    pub current: usize,
    pub locals: Map<nat, nat>,
    pub functions: Seq<FunctionView>,
    pub natives: Seq<NativeView>,
    pub classes: Seq<ClassView>,
    pub instances: Seq<InstanceView>,
    pub output: Seq<Seq<char>>,
    pub specials: Option<ValueView>,
    pub asked: nat,
}

/// The state in which a program starts: the outermost scope alone, empty,
/// and nothing made, written or asked yet.
pub open spec fn initial() -> Store {
    Store {
        scopes: seq![ScopeView { values: Map::empty(), enclosing: None }],
        current: 0,
        locals: Map::empty(),
        functions: Seq::empty(),
        natives: Seq::empty(),
        classes: Seq::empty(),
        instances: Seq::empty(),
        output: Seq::empty(),
        specials: None,
        asked: 0,
    }
}

/// The scope `hops` steps outward from `from`, if the chain is that long.
pub open spec fn outward(scopes: Seq<ScopeView>, from: int, hops: nat) -> Option<int>
    decreases hops,
{
    if !(0 <= from < scopes.len()) {
        None
    } else if hops == 0 {
        Some(from)
    } else {
        match scopes[from].enclosing {
            Some(outer) => outward(scopes, outer as int, (hops - 1) as nat),
            None => None,
        }
    }
}

/// The method `name` of the class `class`: its own, or that of the
/// nearest class above it that has one.
pub open spec fn method_of(classes: Seq<ClassView>, class: int, name: Seq<char>) -> Option<usize>
    decreases class,
{
    if !(0 <= class < classes.len()) {
        None
    } else if classes[class].methods.contains_key(name) {
        Some(classes[class].methods[name])
    } else {
        match classes[class].superclass {
            Some(above) => if above < class {
                method_of(classes, above as int, name)
            } else {
                None
            },
            None => None,
        }
    }
}

impl Store {
    /// The scope in which the variable of the expression `id` lives: as
    /// many scopes outward as the resolver counted, or the outermost one
    /// where it counted nothing.
    pub open spec fn home(self, id: nat) -> Option<int> {
        if self.locals.contains_key(id) {
            outward(self.scopes, self.current as int, self.locals[id])
        } else {
            Some(0int)
        }
    }

    /// What `name` is bound to in the scope `at`.
    pub open spec fn read(self, at: Option<int>, name: Seq<char>) -> Option<ValueView> {
        match at {
            Some(i) => if 0 <= i < self.scopes.len() && self.scopes[i].values.contains_key(name) {
                Some(self.scopes[i].values[name])
            } else {
                None
            },
            None => None,
        }
    }

    /// What the variable `name` of the expression `id` holds.
    pub open spec fn found(self, id: nat, name: Seq<char>) -> Option<ValueView> {
        self.read(self.home(id), name)
    }

    /// `name` bound to `value` in the scope `at`, if there is such a
    /// scope.
    pub open spec fn bind(self, at: int, name: Seq<char>, value: ValueView) -> Store {
        if 0 <= at < self.scopes.len() {
            Store {
                scopes: self.scopes.update(
                    at,
                    ScopeView {
                        values: self.scopes[at].values.insert(name, value),
                        enclosing: self.scopes[at].enclosing,
                    },
                ),
                ..self
            }
        } else {
            self
        }
    }

    /// A new, empty scope within the scope `outer`; its number is the
    /// number of scopes before.
    pub open spec fn enclose(self, outer: usize) -> Store {
        Store {
            scopes: self.scopes.push(ScopeView { values: Map::empty(), enclosing: Some(outer) }),
            ..self
        }
    }

    /// The scope `at` made current.
    pub open spec fn enter(self, at: usize) -> Store {
        Store { current: at, ..self }
    }

    pub open spec fn add_function(self, function: FunctionView) -> Store {
        Store { functions: self.functions.push(function), ..self }
    }

    pub open spec fn add_native(self, native: NativeView) -> Store {
        Store { natives: self.natives.push(native), ..self }
    }

    pub open spec fn add_class(self, class: ClassView) -> Store {
        Store { classes: self.classes.push(class), ..self }
    }

    /// A new instance of `class` without fields; its number is the number
    /// of instances before.
    pub open spec fn add_instance(self, class: usize) -> Store {
        Store {
            instances: self.instances.push(InstanceView { class, fields: Map::empty() }),
            ..self
        }
    }

    /// The field `name` of the instance `instance` set to `value`, if
    /// there is such an instance.
    pub open spec fn set_field(self, instance: int, name: Seq<char>, value: ValueView) -> Store {
        if 0 <= instance < self.instances.len() {
            Store {
                instances: self.instances.update(
                    instance,
                    InstanceView {
                        class: self.instances[instance].class,
                        fields: self.instances[instance].fields.insert(name, value),
                    },
                ),
                ..self
            }
        } else {
            self
        }
    }

    /// `text` written.
    pub open spec fn write(self, text: Seq<char>) -> Store {
        Store { output: self.output.push(text), ..self }
    }

    /// `value` left, or nothing, for the call around.
    pub open spec fn leave(self, value: Option<ValueView>) -> Store {
        Store { specials: value, ..self }
    }

    /// One more question asked of the host.
    pub open spec fn ask(self) -> Store {
        Store { asked: self.asked + 1, ..self }
    }

    /// The method `function` bound to the instance `instance`: a new
    /// scope within the scope of the method that binds `este` alone. The
    /// bound method closes over that scope, whose number is the number
    /// of scopes before.
    pub open spec fn bind_method(self, function: usize, instance: usize) -> Store {
        let scope = self.scopes.len() as int;
        self.enclose(self.functions[function as int].parent_env).bind(
            scope,
            "este"@,
            ValueView::Instance(instance),
        )
    }

    /// The canonical text of a value that is no number.
    pub open spec fn text_of(self, v: ValueView) -> Seq<char> {
        match v {
            ValueView::Number(_) => Seq::empty(),
            ValueView::Text(s) => s,
            ValueView::True => "verdadeiro"@,
            ValueView::False => "falso"@,
            ValueView::Nil => "nulo"@,
            ValueView::Function { function, env } => "<fn "@ + self.functions[function as int].name
                + ">"@,
            ValueView::Native { native } => "<fn "@ + self.natives[native as int].name + ">"@,
            ValueView::Class(c) => self.classes[c as int].name,
            ValueView::Instance(i) => "<"@ + self.classes[self.instances[i as int].class as int].name
                + " instância>"@,
        }
    }
}

} // verus!
