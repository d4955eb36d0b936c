use vstd::prelude::*;
use vstd::string::*;

verus! {

/// The type of a value, known without looking at the value itself.
/// `Unknown` stands for a type that is only settled by the data.
#[derive(Clone, Copy, Debug, PartialEq, Eq, Structural)]
pub enum ValueType {
    Empty,
    Bool,
    Integer,
    Float,
    String,
    Closure,
    Scope,
    Stream,
    Rows,
    Command,
    Unknown,
}

/// The built-in commands that a namespace can bind.
#[derive(Clone, Copy, Debug, PartialEq, Eq, Structural)]
pub enum Builtin {
    Head,
    Where,
    SplitFrom,
    VarLet,
    VarSet,
    VarUnset,
    VarEnv,
    VarUse,
}

/// What a command says of its output before it runs: its type, or that
/// only the data settles it.
#[derive(Clone, Copy, Debug, PartialEq, Eq, Structural)]
pub enum OutputType {
    Known(ValueType),
    Unknown,
}

/// The optional text, by its characters.
pub open spec fn text_view(text: Option<String>) -> Option<Seq<char>> {
    match text {
        Some(t) => Some(t@),
        None => None,
    }
}

impl Builtin {
    /// Whether the command may wait on something outside the pipeline.
    /// Only reading files does.
    pub open spec fn spec_can_block(self) -> bool {
        self == Builtin::SplitFrom
    }

    /// Whether the command may wait on something outside the pipeline, which
    /// the executor has to know when it schedules the stage.
    #[verifier::when_used_as_spec(spec_can_block)]
    pub fn can_block(self) -> (b: bool)
        ensures
            b == self.spec_can_block(),
    {
        match self {
            Builtin::SplitFrom => true,
            _ => false,
        }
    }

    /// The output that each command declares: the four commands that change
    /// the environment give the empty value; the others give rows whose
    /// schema the input or the data settles.
    pub open spec fn spec_declared_output(self) -> OutputType {
        match self {
            Builtin::VarLet => OutputType::Known(ValueType::Empty),
            Builtin::VarSet => OutputType::Known(ValueType::Empty),
            Builtin::VarUnset => OutputType::Known(ValueType::Empty),
            Builtin::VarUse => OutputType::Known(ValueType::Empty),
            Builtin::VarEnv => OutputType::Unknown,
            Builtin::Head => OutputType::Unknown,
            Builtin::Where => OutputType::Unknown,
            Builtin::SplitFrom => OutputType::Unknown,
        }
    }

    /// The output that the command declares.
    #[verifier::when_used_as_spec(spec_declared_output)]
    pub fn declared_output(self) -> (output: OutputType)
        ensures
            output == self.spec_declared_output(),
    {
        match self {
            Builtin::VarLet => OutputType::Known(ValueType::Empty),
            Builtin::VarSet => OutputType::Known(ValueType::Empty),
            Builtin::VarUnset => OutputType::Known(ValueType::Empty),
            Builtin::VarUse => OutputType::Known(ValueType::Empty),
            Builtin::VarEnv => OutputType::Unknown,
            Builtin::Head => OutputType::Unknown,
            Builtin::Where => OutputType::Unknown,
            Builtin::SplitFrom => OutputType::Unknown,
        }
    }

    /// How each command is called, where it says so.
    pub open spec fn spec_usage(self) -> Option<Seq<char>> {
        match self {
            Builtin::VarLet => Some("name := value"@),
            Builtin::VarSet => Some("name = value"@),
            Builtin::VarUnset => Some("scope name:string"@),
            Builtin::VarEnv => Some("env"@),
            Builtin::VarUse => Some("use scope:scope"@),
            _ => None,
        }
    }

    /// How the command is called.
    pub fn usage(self) -> (text: Option<String>)
        ensures
            text_view(text) == self.spec_usage(),
    {
        match self {
            Builtin::VarLet => Some(String::from_str("name := value")),
            Builtin::VarSet => Some(String::from_str("name = value")),
            Builtin::VarUnset => Some(String::from_str("scope name:string")),
            Builtin::VarEnv => Some(String::from_str("env")),
            Builtin::VarUse => Some(String::from_str("use scope:scope")),
            _ => None,
        }
    }

    /// What each command does, in a line, where it says so.
    pub open spec fn spec_short_help(self) -> Option<Seq<char>> {
        match self {
            Builtin::VarLet => Some("Declare a new variable"@),
            Builtin::VarSet => Some("Assign a new value to an already existing variable"@),
            Builtin::VarUnset => Some("Removes a variable from the namespace"@),
            Builtin::VarEnv => Some("Returns a table containing the current namespace"@),
            Builtin::VarUse => Some(
                "Puts the specified scope into the list of scopes to search in by default during scope lookups"@,
            ),
            Builtin::SplitFrom => Some(
                "Read specified files (or input) as a table, split on the specified separator"@,
            ),
            _ => None,
        }
    }

    /// What the command does, in a line.
    pub fn short_help(self) -> (text: Option<String>)
        ensures
            text_view(text) == self.spec_short_help(),
    {
        match self {
            Builtin::VarLet => Some(String::from_str("Declare a new variable")),
            Builtin::VarSet => Some(String::from_str("Assign a new value to an already existing variable")),
            Builtin::VarUnset => Some(String::from_str("Removes a variable from the namespace")),
            Builtin::VarEnv => Some(String::from_str("Returns a table containing the current namespace")),
            Builtin::VarUse => Some(
                String::from_str(
                    "Puts the specified scope into the list of scopes to search in by default during scope lookups",
                ),
            ),
            Builtin::SplitFrom => Some(
                String::from_str("Read specified files (or input) as a table, split on the specified separator"),
            ),
            _ => None,
        }
    }

    /// What more each command has to say, where it has.
    pub open spec fn spec_long_help(self) -> Option<Seq<char>> {
        match self {
            Builtin::VarEnv => Some(
                "    The columns of the table are the name, and the type of the value."@,
            ),
            Builtin::VarUse => Some("    Example:\n\n    use math\n    sqrt 1.0"@),
            _ => None,
        }
    }

    /// What more the command has to say.
    pub fn long_help(self) -> (text: Option<String>)
        ensures
            text_view(text) == self.spec_long_help(),
    {
        match self {
            Builtin::VarEnv => Some(
                String::from_str("    The columns of the table are the name, and the type of the value."),
            ),
            Builtin::VarUse => Some(String::from_str("    Example:\n\n    use math\n    sqrt 1.0")),
            _ => None,
        }
    }
}

/// A deferred body together with the scope it was defined in.
/// The body is a handle that only its compiler can interpret.
#[derive(Clone, Copy, Debug, PartialEq, Eq, Structural)]
pub struct Closure {
    pub captured_scope: usize,
    pub body: u64,
}

/// A value that flows through a pipeline. Floats are carried by their bit
/// pattern; streams and tables by the handle of the row sequence they share.
#[derive(Clone, Debug, PartialEq, Eq)]
pub enum Value {
    Empty,
    Bool(bool),
    Integer(i128),
    Float(u64),
    String(String),
    Closure(Closure),
    Scope(usize),
    Stream(usize),
    Rows(usize),
    Command(Builtin),
}

impl ValueType {
    /// Whether a slot declared as `self` accepts a value of type `actual`:
    /// the same type, or any type where the slot is `Unknown`.
    pub open spec fn spec_is_assignable(self, actual: ValueType) -> bool {
        self == ValueType::Unknown || self == actual
    }

    /// Whether a slot of this type accepts a value of type `actual`.
    #[verifier::when_used_as_spec(spec_is_assignable)]
    pub fn is_assignable(self, actual: ValueType) -> (b: bool)
        ensures
            b == self.spec_is_assignable(actual),
    {
        self == ValueType::Unknown || self == actual
    }

    /// The name of each type.
    pub open spec fn spec_name(self) -> Seq<char> {
        match self {
            ValueType::Empty => "empty"@,
            ValueType::Bool => "bool"@,
            ValueType::Integer => "integer"@,
            ValueType::Float => "float"@,
            ValueType::String => "string"@,
            ValueType::Closure => "closure"@,
            ValueType::Scope => "scope"@,
            ValueType::Stream => "stream"@,
            ValueType::Rows => "rows"@,
            ValueType::Command => "command"@,
            ValueType::Unknown => "any"@,
        }
    }

    /// The type's name as it is shown in a table.
    pub fn name(self) -> (text: String)
        ensures
            text@ == self.spec_name(),
    {
        match self {
            ValueType::Empty => String::from_str("empty"),
            ValueType::Bool => String::from_str("bool"),
            ValueType::Integer => String::from_str("integer"),
            ValueType::Float => String::from_str("float"),
            ValueType::String => String::from_str("string"),
            ValueType::Closure => String::from_str("closure"),
            ValueType::Scope => String::from_str("scope"),
            ValueType::Stream => String::from_str("stream"),
            ValueType::Rows => String::from_str("rows"),
            ValueType::Command => String::from_str("command"),
            ValueType::Unknown => String::from_str("any"),
        }
    }
}

impl Value {
    /// The type of each kind of value.
    pub open spec fn spec_value_type(&self) -> ValueType {
        match self {
            Value::Empty => ValueType::Empty,
            Value::Bool(_) => ValueType::Bool,
            Value::Integer(_) => ValueType::Integer,
            Value::Float(_) => ValueType::Float,
            Value::String(_) => ValueType::String,
            Value::Closure(_) => ValueType::Closure,
            Value::Scope(_) => ValueType::Scope,
            Value::Stream(_) => ValueType::Stream,
            Value::Rows(_) => ValueType::Rows,
            Value::Command(_) => ValueType::Command,
        }
    }

    /// The type of this value. It is never `Unknown`.
    #[verifier::when_used_as_spec(spec_value_type)]
    pub fn value_type(&self) -> (t: ValueType)
        ensures
            t == self.spec_value_type(),
            t != ValueType::Unknown,
    {
        match self {
            Value::Empty => ValueType::Empty,
            Value::Bool(_) => ValueType::Bool,
            Value::Integer(_) => ValueType::Integer,
            Value::Float(_) => ValueType::Float,
            Value::String(_) => ValueType::String,
            Value::Closure(_) => ValueType::Closure,
            Value::Scope(_) => ValueType::Scope,
            Value::Stream(_) => ValueType::Stream,
            Value::Rows(_) => ValueType::Rows,
            Value::Command(_) => ValueType::Command,
        }
    }

    /// A second value equal to this one.
    pub fn duplicate(&self) -> (copy: Value)
        ensures
            copy == *self,
    {
        match self {
            Value::Empty => Value::Empty,
            Value::Bool(b) => Value::Bool(*b),
            Value::Integer(i) => Value::Integer(*i),
            Value::Float(bits) => Value::Float(*bits),
            Value::String(s) => Value::String(s.clone()),
            Value::Closure(c) => Value::Closure(*c),
            Value::Scope(id) => Value::Scope(*id),
            Value::Stream(id) => Value::Stream(*id),
            Value::Rows(id) => Value::Rows(*id),
            Value::Command(c) => Value::Command(*c),
        }
    }
}

} // verus!
