//! The syntax tree of a Protobuf file, together with its mathematical model.
//!
//! Every type that holds text has a model (its view) in which each `String`
//! is a `Seq<char>` and each `Vec` a `Seq`; the parser's contracts speak of
//! these models.
use vstd::prelude::*;

verus! {

#[derive(Debug, Clone, Copy, PartialEq, Eq, Structural)]
pub enum Syntax {
    Proto2,
    Proto3,
}

#[derive(Debug, PartialEq)]
pub enum Reserved {
    Number(i32),
    Range(i32, i32),
    FieldName(String),
}

pub enum SpecReserved {
    Number(i32),
    Range(i32, i32),
    FieldName(Seq<char>),
}

impl View for Reserved {
    type V = SpecReserved;

    open spec fn view(&self) -> SpecReserved {
        match self {
            Reserved::Number(n) => SpecReserved::Number(*n),
            Reserved::Range(s, e) => SpecReserved::Range(*s, *e),
            Reserved::FieldName(s) => SpecReserved::FieldName(s@),
        }
    }
}

impl Clone for Reserved {
    fn clone(&self) -> (r: Self)
        ensures
            r@ == self@,
    {
        match self {
            Reserved::Number(n) => Reserved::Number(*n),
            Reserved::Range(s, e) => Reserved::Range(*s, *e),
            Reserved::FieldName(s) => Reserved::FieldName(s.clone()),
        }
    }
}

/// Two sequences whose items have equal views have equal sequences of views.
pub proof fn lemma_views_equal<T: View>(a: Seq<T>, b: Seq<T>)
    requires
        a.len() == b.len(),
        forall|i: int| 0 <= i < a.len() ==> #[trigger] a[i]@ == b[i]@,
    ensures
        a.map_values(|x: T| x@) == b.map_values(|x: T| x@),
{
    assert(a.map_values(|x: T| x@) =~= b.map_values(|x: T| x@));
}

/// The value of an option. A floating-point literal is kept as the text
/// that the source file wrote for it.
#[derive(Debug, PartialEq)]
pub enum OptionValue {
    Identifier(String),
    String(String),
    DecimalInt(i64),
    Float(String),
    Octal(i64),
    Hex(i64),
    Bool(bool),
    List(Vec<OptionValue>),
    MapOf(Vec<(OptionValue, OptionValue)>),
    Enum(String, String),
    Message(Vec<(String, OptionValue)>),
}

pub enum SpecOptionValue {
    Identifier(Seq<char>),
    String(Seq<char>),
    DecimalInt(i64),
    Float(Seq<char>),
    Octal(i64),
    Hex(i64),
    Bool(bool),
    List(Seq<SpecOptionValue>),
    MapOf(Seq<(SpecOptionValue, SpecOptionValue)>),
    Enum(Seq<char>, Seq<char>),
    Message(Seq<(Seq<char>, SpecOptionValue)>),
}

pub open spec fn option_value_view(v: OptionValue) -> SpecOptionValue
    decreases v,
{
    match v {
        OptionValue::Identifier(s) => SpecOptionValue::Identifier(s@),
        OptionValue::String(s) => SpecOptionValue::String(s@),
        OptionValue::DecimalInt(n) => SpecOptionValue::DecimalInt(n),
        OptionValue::Float(s) => SpecOptionValue::Float(s@),
        OptionValue::Octal(n) => SpecOptionValue::Octal(n),
        OptionValue::Hex(n) => SpecOptionValue::Hex(n),
        OptionValue::Bool(b) => SpecOptionValue::Bool(b),
        OptionValue::List(l) => SpecOptionValue::List(option_values_view(l@)),
        OptionValue::MapOf(l) => SpecOptionValue::MapOf(option_pairs_view(l@)),
        OptionValue::Enum(a, b) => SpecOptionValue::Enum(a@, b@),
        OptionValue::Message(l) => SpecOptionValue::Message(option_entries_view(l@)),
    }
}

pub open spec fn option_values_view(s: Seq<OptionValue>) -> Seq<SpecOptionValue>
    decreases s,
{
    if s.len() == 0 {
        Seq::empty()
    } else {
        option_values_view(s.subrange(0, s.len() - 1)).push(option_value_view(s[s.len() - 1]))
    }
}

pub open spec fn option_pairs_view(s: Seq<(OptionValue, OptionValue)>) -> Seq<
    (SpecOptionValue, SpecOptionValue),
>
    decreases s,
{
    if s.len() == 0 {
        Seq::empty()
    } else {
        let p = s[s.len() - 1];
        option_pairs_view(s.subrange(0, s.len() - 1)).push(
            (option_value_view(p.0), option_value_view(p.1)),
        )
    }
}

pub open spec fn option_entries_view(s: Seq<(String, OptionValue)>) -> Seq<
    (Seq<char>, SpecOptionValue),
>
    decreases s,
{
    if s.len() == 0 {
        Seq::empty()
    } else {
        let p = s[s.len() - 1];
        option_entries_view(s.subrange(0, s.len() - 1)).push((p.0@, option_value_view(p.1)))
    }
}

impl Clone for OptionValue {
    #[verifier::loop_isolation(false)]
    fn clone(&self) -> (r: Self)
        ensures
            r@ == self@,
        decreases self,
    {
        match self {
            OptionValue::Identifier(s) => OptionValue::Identifier(s.clone()),
            OptionValue::String(s) => OptionValue::String(s.clone()),
            OptionValue::DecimalInt(n) => OptionValue::DecimalInt(*n),
            OptionValue::Float(s) => OptionValue::Float(s.clone()),
            OptionValue::Octal(n) => OptionValue::Octal(*n),
            OptionValue::Hex(n) => OptionValue::Hex(*n),
            OptionValue::Bool(b) => OptionValue::Bool(*b),
            OptionValue::List(l) => {
                let mut out: Vec<OptionValue> = Vec::new();
                let mut i: usize = 0;
                while i < l.len()
                    invariant
                        i <= l.len(),
                        option_values_view(out@) == option_values_view(l@.take(i as int)),
                    decreases l.len() - i,
                {
                    let ghost before = out@;
                    let x = l[i].clone();
                    out.push(x);
                    proof {
                        assert(out@.subrange(0, out@.len() - 1) =~= before);
                        assert(l@.take(i + 1).subrange(0, i as int) =~= l@.take(i as int));
                    }
                    i = i + 1;
                }
                assert(l@.take(l@.len() as int) =~= l@);
                OptionValue::List(out)
            },
            OptionValue::MapOf(l) => {
                let mut out: Vec<(OptionValue, OptionValue)> = Vec::new();
                let mut i: usize = 0;
                while i < l.len()
                    invariant
                        i <= l.len(),
                        option_pairs_view(out@) == option_pairs_view(l@.take(i as int)),
                    decreases l.len() - i,
                {
                    let ghost before = out@;
                    let x = (l[i].0.clone(), l[i].1.clone());
                    out.push(x);
                    proof {
                        assert(out@.subrange(0, out@.len() - 1) =~= before);
                        assert(l@.take(i + 1).subrange(0, i as int) =~= l@.take(i as int));
                    }
                    i = i + 1;
                }
                assert(l@.take(l@.len() as int) =~= l@);
                OptionValue::MapOf(out)
            },
            OptionValue::Enum(a, b) => OptionValue::Enum(a.clone(), b.clone()),
            OptionValue::Message(l) => {
                let mut out: Vec<(String, OptionValue)> = Vec::new();
                let mut i: usize = 0;
                while i < l.len()
                    invariant
                        i <= l.len(),
                        option_entries_view(out@) == option_entries_view(l@.take(i as int)),
                    decreases l.len() - i,
                {
                    let ghost before = out@;
                    let x = (l[i].0.clone(), l[i].1.clone());
                    out.push(x);
                    proof {
                        assert(out@.subrange(0, out@.len() - 1) =~= before);
                        assert(l@.take(i + 1).subrange(0, i as int) =~= l@.take(i as int));
                    }
                    i = i + 1;
                }
                assert(l@.take(l@.len() as int) =~= l@);
                OptionValue::Message(out)
            },
        }
    }
}

impl View for OptionValue {
    type V = SpecOptionValue;

    open spec fn view(&self) -> SpecOptionValue {
        option_value_view(*self)
    }
}

#[derive(Debug, PartialEq)]
pub struct ProtoOption {
    pub name: String,
    pub value: OptionValue,
}

pub struct SpecProtoOption {
    pub name: Seq<char>,
    pub value: SpecOptionValue,
}

impl View for ProtoOption {
    type V = SpecProtoOption;

    open spec fn view(&self) -> SpecProtoOption {
        SpecProtoOption { name: self.name@, value: self.value@ }
    }
}

impl Clone for ProtoOption {
    fn clone(&self) -> (r: Self)
        ensures
            r@ == self@,
    {
        ProtoOption { name: self.name.clone(), value: self.value.clone() }
    }
}

#[derive(Debug, Clone, PartialEq)]
pub struct ProtoFile {
    pub syntax: Syntax,
    pub package: Option<String>,
    pub imports: Vec<Import>,
    pub options: Vec<ProtoOption>,
    pub messages: Vec<Message>,
    pub enums: Vec<Enum>,
    pub services: Vec<Service>,
}

pub struct SpecProtoFile {
    pub syntax: Syntax,
    pub package: Option<Seq<char>>,
    pub imports: Seq<SpecImport>,
    pub options: Seq<SpecProtoOption>,
    pub messages: Seq<SpecMessage>,
    pub enums: Seq<SpecEnum>,
    pub services: Seq<SpecService>,
}

impl SpecProtoFile {
    pub open spec fn with_syntax(self, syntax: Syntax) -> SpecProtoFile {
        SpecProtoFile { syntax, ..self }
    }

    pub open spec fn with_package(self, package: Option<Seq<char>>) -> SpecProtoFile {
        SpecProtoFile { package, ..self }
    }

    pub open spec fn with_imports(self, imports: Seq<SpecImport>) -> SpecProtoFile {
        SpecProtoFile { imports, ..self }
    }
}

pub open spec fn opt_string_view(o: Option<String>) -> Option<Seq<char>> {
    match o {
        Some(s) => Some(s@),
        None => None,
    }
}

impl View for ProtoFile {
    type V = SpecProtoFile;

    open spec fn view(&self) -> SpecProtoFile {
        SpecProtoFile {
            syntax: self.syntax,
            package: opt_string_view(self.package),
            imports: self.imports@.map_values(|i: Import| i@),
            options: self.options@.map_values(|o: ProtoOption| o@),
            messages: messages_view(self.messages@),
            enums: self.enums@.map_values(|e: Enum| e@),
            services: self.services@.map_values(|s: Service| s@),
        }
    }
}

#[derive(Debug, Clone, PartialEq)]
pub struct Import {
    pub path: String,
    pub kind: ImportKind,
}

pub struct SpecImport {
    pub path: Seq<char>,
    pub kind: ImportKind,
}

impl View for Import {
    type V = SpecImport;

    open spec fn view(&self) -> SpecImport {
        SpecImport { path: self.path@, kind: self.kind }
    }
}

#[derive(Debug, Clone, Copy, PartialEq, Eq, Structural)]
pub enum ImportKind {
    Default,
    Public,
    Weak,
}

#[derive(Debug, PartialEq)]
pub struct Message {
    pub name: String,
    pub fields: Vec<Field>,
    pub oneofs: Vec<OneOf>,
    pub nested_messages: Vec<Message>,
    pub nested_enums: Vec<Enum>,
    pub options: Vec<ProtoOption>,
    pub reserved: Vec<Reserved>,
}

impl Clone for Message {
    #[verifier::loop_isolation(false)]
    fn clone(&self) -> (r: Self)
        ensures
            r@ == self@,
        decreases self,
    {
        let mut nested: Vec<Message> = Vec::new();
        let mut i: usize = 0;
        while i < self.nested_messages.len()
            invariant
                i <= self.nested_messages.len(),
                messages_view(nested@) == messages_view(self.nested_messages@.take(i as int)),
            decreases self.nested_messages.len() - i,
        {
            let ghost before = nested@;
            let m = self.nested_messages[i].clone();
            nested.push(m);
            proof {
                lemma_messages_view_push(before, m);
                lemma_messages_view_push(
                    self.nested_messages@.take(i as int),
                    self.nested_messages@[i as int],
                );
                assert(self.nested_messages@.take(i + 1) =~= self.nested_messages@.take(
                    i as int,
                ).push(self.nested_messages@[i as int]));
            }
            i = i + 1;
        }
        assert(self.nested_messages@.take(self.nested_messages@.len() as int)
            =~= self.nested_messages@);
        let fields = self.fields.clone();
        let oneofs = self.oneofs.clone();
        let nested_enums = self.nested_enums.clone();
        let options = self.options.clone();
        let reserved = self.reserved.clone();
        proof {
            assert forall|j: int| 0 <= j < fields@.len() implies #[trigger] fields@[j]@
                == self.fields@[j]@ by {
                assert(cloned::<Field>(self.fields@[j], fields@[j]));
            }
            lemma_views_equal(fields@, self.fields@);
            assert forall|j: int| 0 <= j < oneofs@.len() implies #[trigger] oneofs@[j]@
                == self.oneofs@[j]@ by {
                assert(cloned::<OneOf>(self.oneofs@[j], oneofs@[j]));
            }
            lemma_views_equal(oneofs@, self.oneofs@);
            assert forall|j: int| 0 <= j < nested_enums@.len() implies #[trigger] nested_enums@[j]@
                == self.nested_enums@[j]@ by {
                assert(cloned::<Enum>(self.nested_enums@[j], nested_enums@[j]));
            }
            lemma_views_equal(nested_enums@, self.nested_enums@);
            assert forall|j: int| 0 <= j < options@.len() implies #[trigger] options@[j]@
                == self.options@[j]@ by {
                assert(cloned::<ProtoOption>(self.options@[j], options@[j]));
            }
            lemma_views_equal(options@, self.options@);
            assert forall|j: int| 0 <= j < reserved@.len() implies #[trigger] reserved@[j]@
                == self.reserved@[j]@ by {
                assert(cloned::<Reserved>(self.reserved@[j], reserved@[j]));
            }
            lemma_views_equal(reserved@, self.reserved@);
        }
        Message {
            name: self.name.clone(),
            fields,
            oneofs,
            nested_messages: nested,
            nested_enums,
            options,
            reserved,
        }
    }
}

pub struct SpecMessage {
    pub name: Seq<char>,
    pub fields: Seq<SpecField>,
    pub oneofs: Seq<SpecOneOf>,
    pub nested_messages: Seq<SpecMessage>,
    pub nested_enums: Seq<SpecEnum>,
    pub options: Seq<SpecProtoOption>,
    pub reserved: Seq<SpecReserved>,
}

pub open spec fn message_view(m: Message) -> SpecMessage
    decreases m,
{
    SpecMessage {
        name: m.name@,
        fields: m.fields@.map_values(|f: Field| f@),
        oneofs: m.oneofs@.map_values(|o: OneOf| o@),
        nested_messages: messages_view(m.nested_messages@),
        nested_enums: m.nested_enums@.map_values(|e: Enum| e@),
        options: m.options@.map_values(|o: ProtoOption| o@),
        reserved: m.reserved@.map_values(|r: Reserved| r@),
    }
}

pub open spec fn messages_view(s: Seq<Message>) -> Seq<SpecMessage>
    decreases s,
{
    if s.len() == 0 {
        Seq::empty()
    } else {
        messages_view(s.subrange(0, s.len() - 1)).push(message_view(s[s.len() - 1]))
    }
}

/// `messages_view` keeps the length and maps each message by its view.
pub proof fn lemma_messages_view(s: Seq<Message>)
    ensures
        messages_view(s).len() == s.len(),
        forall|i: int| 0 <= i < s.len() ==> #[trigger] messages_view(s)[i] == message_view(s[i]),
    decreases s.len(),
{
    if s.len() > 0 {
        lemma_messages_view(s.subrange(0, s.len() - 1));
    }
}

/// Viewing a sequence with one more message appends that message's view.
pub proof fn lemma_messages_view_push(s: Seq<Message>, m: Message)
    ensures
        messages_view(s.push(m)) == messages_view(s).push(message_view(m)),
{
    assert(s.push(m).subrange(0, s.len() as int) =~= s);
}

impl View for Message {
    type V = SpecMessage;

    open spec fn view(&self) -> SpecMessage {
        message_view(*self)
    }
}

/// A field number. A floating-point literal is kept as the text that the
/// source file wrote for it.
#[derive(Debug, PartialEq)]
pub enum NumberValue {
    DecimalInt(i64),
    Octal(i64),
    Hex(i64),
    Float(String),
}

pub enum SpecNumberValue {
    DecimalInt(i64),
    Octal(i64),
    Hex(i64),
    Float(Seq<char>),
}

impl View for NumberValue {
    type V = SpecNumberValue;

    open spec fn view(&self) -> SpecNumberValue {
        match self {
            NumberValue::DecimalInt(n) => SpecNumberValue::DecimalInt(*n),
            NumberValue::Octal(n) => SpecNumberValue::Octal(*n),
            NumberValue::Hex(n) => SpecNumberValue::Hex(*n),
            NumberValue::Float(s) => SpecNumberValue::Float(s@),
        }
    }
}

impl Clone for NumberValue {
    fn clone(&self) -> (r: Self)
        ensures
            r@ == self@,
    {
        match self {
            NumberValue::DecimalInt(n) => NumberValue::DecimalInt(*n),
            NumberValue::Octal(n) => NumberValue::Octal(*n),
            NumberValue::Hex(n) => NumberValue::Hex(*n),
            NumberValue::Float(s) => NumberValue::Float(s.clone()),
        }
    }
}

#[derive(Debug, PartialEq)]
pub struct Field {
    pub name: String,
    pub number: NumberValue,
    pub label: FieldLabel,
    pub typ: FieldType,
    pub options: Vec<ProtoOption>,
}

pub struct SpecField {
    pub name: Seq<char>,
    pub number: SpecNumberValue,
    pub label: FieldLabel,
    pub typ: SpecFieldType,
    pub options: Seq<SpecProtoOption>,
}

impl View for Field {
    type V = SpecField;

    open spec fn view(&self) -> SpecField {
        SpecField {
            name: self.name@,
            number: self.number@,
            label: self.label,
            typ: self.typ@,
            options: self.options@.map_values(|o: ProtoOption| o@),
        }
    }
}

impl Clone for Field {
    fn clone(&self) -> (r: Self)
        ensures
            r@ == self@,
    {
        let options = self.options.clone();
        proof {
            assert forall|i: int| 0 <= i < options@.len() implies #[trigger] options@[i]@
                == self.options@[i]@ by {
                assert(cloned::<ProtoOption>(self.options@[i], options@[i]));
            }
            lemma_views_equal(options@, self.options@);
        }
        Field {
            name: self.name.clone(),
            number: self.number.clone(),
            label: self.label,
            typ: self.typ.clone(),
            options,
        }
    }
}

#[derive(Debug, Clone, Copy, PartialEq, Eq, Structural)]
pub enum FieldLabel {
    Optional,
    Required,
    Repeated,
}

#[derive(Debug, PartialEq)]
pub enum FieldType {
    Double,
    Float,
    Int32,
    Int64,
    UInt32,
    UInt64,
    SInt32,
    SInt64,
    Fixed32,
    Fixed64,
    SFixed32,
    SFixed64,
    Bool,
    String,
    Bytes,
    MessageOrEnum(String),
    MapOf(Box<FieldType>, Box<FieldType>),
}

impl Clone for FieldType {
    fn clone(&self) -> (r: Self)
        ensures
            r@ == self@,
        decreases self,
    {
        match self {
            FieldType::Double => FieldType::Double,
            FieldType::Float => FieldType::Float,
            FieldType::Int32 => FieldType::Int32,
            FieldType::Int64 => FieldType::Int64,
            FieldType::UInt32 => FieldType::UInt32,
            FieldType::UInt64 => FieldType::UInt64,
            FieldType::SInt32 => FieldType::SInt32,
            FieldType::SInt64 => FieldType::SInt64,
            FieldType::Fixed32 => FieldType::Fixed32,
            FieldType::Fixed64 => FieldType::Fixed64,
            FieldType::SFixed32 => FieldType::SFixed32,
            FieldType::SFixed64 => FieldType::SFixed64,
            FieldType::Bool => FieldType::Bool,
            FieldType::String => FieldType::String,
            FieldType::Bytes => FieldType::Bytes,
            FieldType::MessageOrEnum(s) => FieldType::MessageOrEnum(s.clone()),
            FieldType::MapOf(k, v) => FieldType::MapOf(
                Box::new((**k).clone()),
                Box::new((**v).clone()),
            ),
        }
    }
}

pub enum SpecFieldType {
    Double,
    Float,
    Int32,
    Int64,
    UInt32,
    UInt64,
    SInt32,
    SInt64,
    Fixed32,
    Fixed64,
    SFixed32,
    SFixed64,
    Bool,
    String,
    Bytes,
    MessageOrEnum(Seq<char>),
    MapOf(Box<SpecFieldType>, Box<SpecFieldType>),
}

impl View for FieldType {
    type V = SpecFieldType;

    open spec fn view(&self) -> SpecFieldType
        decreases self,
    {
        match self {
            FieldType::Double => SpecFieldType::Double,
            FieldType::Float => SpecFieldType::Float,
            FieldType::Int32 => SpecFieldType::Int32,
            FieldType::Int64 => SpecFieldType::Int64,
            FieldType::UInt32 => SpecFieldType::UInt32,
            FieldType::UInt64 => SpecFieldType::UInt64,
            FieldType::SInt32 => SpecFieldType::SInt32,
            FieldType::SInt64 => SpecFieldType::SInt64,
            FieldType::Fixed32 => SpecFieldType::Fixed32,
            FieldType::Fixed64 => SpecFieldType::Fixed64,
            FieldType::SFixed32 => SpecFieldType::SFixed32,
            FieldType::SFixed64 => SpecFieldType::SFixed64,
            FieldType::Bool => SpecFieldType::Bool,
            FieldType::String => SpecFieldType::String,
            FieldType::Bytes => SpecFieldType::Bytes,
            FieldType::MessageOrEnum(s) => SpecFieldType::MessageOrEnum(s@),
            FieldType::MapOf(k, v) => SpecFieldType::MapOf(
                Box::new((**k).view()),
                Box::new((**v).view()),
            ),
        }
    }
}

#[derive(Debug, PartialEq)]
pub struct OneOf {
    pub name: String,
    pub fields: Vec<Field>,
}

pub struct SpecOneOf {
    pub name: Seq<char>,
    pub fields: Seq<SpecField>,
}

impl View for OneOf {
    type V = SpecOneOf;

    open spec fn view(&self) -> SpecOneOf {
        SpecOneOf { name: self.name@, fields: self.fields@.map_values(|f: Field| f@) }
    }
}

impl Clone for OneOf {
    fn clone(&self) -> (r: Self)
        ensures
            r@ == self@,
    {
        let fields = self.fields.clone();
        proof {
            assert forall|i: int| 0 <= i < fields@.len() implies #[trigger] fields@[i]@
                == self.fields@[i]@ by {
                assert(cloned::<Field>(self.fields@[i], fields@[i]));
            }
            lemma_views_equal(fields@, self.fields@);
        }
        OneOf { name: self.name.clone(), fields }
    }
}

#[derive(Debug, PartialEq)]
pub struct Enum {
    pub name: String,
    pub values: Vec<EnumValue>,
    pub options: Vec<EnumValueOption>,
}

pub struct SpecEnum {
    pub name: Seq<char>,
    pub values: Seq<SpecEnumValue>,
    pub options: Seq<SpecEnumValueOption>,
}

impl View for Enum {
    type V = SpecEnum;

    open spec fn view(&self) -> SpecEnum {
        SpecEnum {
            name: self.name@,
            values: self.values@.map_values(|v: EnumValue| v@),
            options: self.options@.map_values(|o: EnumValueOption| o@),
        }
    }
}

impl Clone for Enum {
    fn clone(&self) -> (r: Self)
        ensures
            r@ == self@,
    {
        let values = self.values.clone();
        let options = self.options.clone();
        proof {
            assert forall|i: int| 0 <= i < values@.len() implies #[trigger] values@[i]@
                == self.values@[i]@ by {
                assert(cloned::<EnumValue>(self.values@[i], values@[i]));
            }
            lemma_views_equal(values@, self.values@);
            assert forall|i: int| 0 <= i < options@.len() implies #[trigger] options@[i]@
                == self.options@[i]@ by {
                assert(cloned::<EnumValueOption>(self.options@[i], options@[i]));
            }
            lemma_views_equal(options@, self.options@);
        }
        Enum { name: self.name.clone(), values, options }
    }
}

#[derive(Debug, PartialEq)]
pub struct EnumValue {
    pub name: String,
    pub number: NumberValue,
    pub options: Vec<EnumValueOption>,
}

pub struct SpecEnumValue {
    pub name: Seq<char>,
    pub number: SpecNumberValue,
    pub options: Seq<SpecEnumValueOption>,
}

impl View for EnumValue {
    type V = SpecEnumValue;

    open spec fn view(&self) -> SpecEnumValue {
        SpecEnumValue {
            name: self.name@,
            number: self.number@,
            options: self.options@.map_values(|o: EnumValueOption| o@),
        }
    }
}

impl Clone for EnumValue {
    fn clone(&self) -> (r: Self)
        ensures
            r@ == self@,
    {
        let options = self.options.clone();
        proof {
            assert forall|i: int| 0 <= i < options@.len() implies #[trigger] options@[i]@
                == self.options@[i]@ by {
                assert(cloned::<EnumValueOption>(self.options@[i], options@[i]));
            }
            lemma_views_equal(options@, self.options@);
        }
        EnumValue { name: self.name.clone(), number: self.number.clone(), options }
    }
}

#[derive(Debug, PartialEq)]
pub struct EnumValueOption {
    pub name: String,
    pub value: EnumValueOptionValue,
}

pub struct SpecEnumValueOption {
    pub name: Seq<char>,
    pub value: SpecEnumValueOptionValue,
}

impl View for EnumValueOption {
    type V = SpecEnumValueOption;

    open spec fn view(&self) -> SpecEnumValueOption {
        SpecEnumValueOption { name: self.name@, value: self.value@ }
    }
}

impl Clone for EnumValueOption {
    fn clone(&self) -> (r: Self)
        ensures
            r@ == self@,
    {
        EnumValueOption { name: self.name.clone(), value: self.value.clone() }
    }
}

/// The value of an enum option. A floating-point literal is kept as the text
/// that the source file wrote for it.
#[derive(Debug, PartialEq)]
pub enum EnumValueOptionValue {
    String(String),
    DecimalInt(i64),
    Octal(i64),
    Hex(i64),
    Float(String),
    Bool(bool),
    Identifier(String),
}

pub enum SpecEnumValueOptionValue {
    String(Seq<char>),
    DecimalInt(i64),
    Octal(i64),
    Hex(i64),
    Float(Seq<char>),
    Bool(bool),
    Identifier(Seq<char>),
}

impl View for EnumValueOptionValue {
    type V = SpecEnumValueOptionValue;

    open spec fn view(&self) -> SpecEnumValueOptionValue {
        match self {
            EnumValueOptionValue::String(s) => SpecEnumValueOptionValue::String(s@),
            EnumValueOptionValue::DecimalInt(n) => SpecEnumValueOptionValue::DecimalInt(*n),
            EnumValueOptionValue::Octal(n) => SpecEnumValueOptionValue::Octal(*n),
            EnumValueOptionValue::Hex(n) => SpecEnumValueOptionValue::Hex(*n),
            EnumValueOptionValue::Float(s) => SpecEnumValueOptionValue::Float(s@),
            EnumValueOptionValue::Bool(b) => SpecEnumValueOptionValue::Bool(*b),
            EnumValueOptionValue::Identifier(s) => SpecEnumValueOptionValue::Identifier(s@),
        }
    }
}

impl Clone for EnumValueOptionValue {
    fn clone(&self) -> (r: Self)
        ensures
            r@ == self@,
    {
        match self {
            EnumValueOptionValue::String(s) => EnumValueOptionValue::String(s.clone()),
            EnumValueOptionValue::DecimalInt(n) => EnumValueOptionValue::DecimalInt(*n),
            EnumValueOptionValue::Octal(n) => EnumValueOptionValue::Octal(*n),
            EnumValueOptionValue::Hex(n) => EnumValueOptionValue::Hex(*n),
            EnumValueOptionValue::Float(s) => EnumValueOptionValue::Float(s.clone()),
            EnumValueOptionValue::Bool(b) => EnumValueOptionValue::Bool(*b),
            EnumValueOptionValue::Identifier(s) => EnumValueOptionValue::Identifier(s.clone()),
        }
    }
}

impl EnumValueOption {
    pub fn new(name: String, value: EnumValueOptionValue) -> (r: Self)
        ensures
            r.name == name,
            r.value == value,
    {
        EnumValueOption { name, value }
    }
}

#[derive(Debug, Clone, PartialEq)]
pub struct Service {
    pub name: String,
    pub methods: Vec<Method>,
    pub options: Vec<ProtoOption>,
}

pub struct SpecService {
    pub name: Seq<char>,
    pub methods: Seq<SpecMethod>,
    pub options: Seq<SpecProtoOption>,
}

impl View for Service {
    type V = SpecService;

    open spec fn view(&self) -> SpecService {
        SpecService {
            name: self.name@,
            methods: self.methods@.map_values(|m: Method| m@),
            options: self.options@.map_values(|o: ProtoOption| o@),
        }
    }
}

#[derive(Debug, Clone, PartialEq)]
pub struct Method {
    pub name: String,
    pub input_type: String,
    pub output_type: String,
    pub client_streaming: bool,
    pub server_streaming: bool,
    pub options: Vec<ProtoOption>,
}

pub struct SpecMethod {
    pub name: Seq<char>,
    pub input_type: Seq<char>,
    pub output_type: Seq<char>,
    pub client_streaming: bool,
    pub server_streaming: bool,
    pub options: Seq<SpecProtoOption>,
}

impl View for Method {
    type V = SpecMethod;

    open spec fn view(&self) -> SpecMethod {
        SpecMethod {
            name: self.name@,
            input_type: self.input_type@,
            output_type: self.output_type@,
            client_streaming: self.client_streaming,
            server_streaming: self.server_streaming,
            options: self.options@.map_values(|o: ProtoOption| o@),
        }
    }
}

#[derive(Debug, Clone, Copy, PartialEq, Eq, Structural)]
pub struct ReservedRange {
    pub start: i32,
    pub end: Option<i32>,
}

/// A constant of the Protobuf grammar. A floating-point constant is kept as
/// the text that the source file wrote for it.
#[derive(Debug, Clone, PartialEq)]
pub enum Constant {
    Int(i64),
    Float(String),
    Bool(bool),
    String(String),
    Identifier(String),
}

/// The model of an empty Proto3 file.
pub open spec fn empty_file() -> SpecProtoFile {
    SpecProtoFile {
        syntax: Syntax::Proto3,
        package: None,
        imports: Seq::empty(),
        options: Seq::empty(),
        messages: Seq::empty(),
        enums: Seq::empty(),
        services: Seq::empty(),
    }
}

impl ProtoFile {
    /// An empty Proto3 file.
    pub fn new() -> (r: Self)
        ensures
            r@ == empty_file(),
    {
        let r = ProtoFile {
            syntax: Syntax::Proto3,
            package: None,
            imports: Vec::new(),
            options: Vec::new(),
            messages: Vec::new(),
            enums: Vec::new(),
            services: Vec::new(),
        };
        proof {
            assert(r.imports@.map_values(|i: Import| i@) =~= Seq::<SpecImport>::empty());
            assert(r.options@.map_values(|o: ProtoOption| o@) =~= Seq::<SpecProtoOption>::empty());
            assert(r.enums@.map_values(|e: Enum| e@) =~= Seq::<SpecEnum>::empty());
            assert(r.services@.map_values(|s: Service| s@) =~= Seq::<SpecService>::empty());
        }
        r
    }
}

/// The model of a message with the given name and nothing else.
pub open spec fn empty_message(name: Seq<char>) -> SpecMessage {
    SpecMessage {
        name,
        fields: Seq::empty(),
        oneofs: Seq::empty(),
        nested_messages: Seq::empty(),
        nested_enums: Seq::empty(),
        options: Seq::empty(),
        reserved: Seq::empty(),
    }
}

impl Message {
    /// A message with the given name and nothing else.
    pub fn new(name: String) -> (r: Self)
        ensures
            r@ == empty_message(name@),
    {
        let r = Message {
            name,
            fields: Vec::new(),
            oneofs: Vec::new(),
            nested_messages: Vec::new(),
            nested_enums: Vec::new(),
            options: Vec::new(),
            reserved: Vec::new(),
        };
        proof {
            assert(r.fields@.map_values(|f: Field| f@) =~= Seq::<SpecField>::empty());
            assert(r.oneofs@.map_values(|o: OneOf| o@) =~= Seq::<SpecOneOf>::empty());
            assert(r.nested_enums@.map_values(|e: Enum| e@) =~= Seq::<SpecEnum>::empty());
            assert(r.options@.map_values(|o: ProtoOption| o@) =~= Seq::<SpecProtoOption>::empty());
            assert(r.reserved@.map_values(|x: Reserved| x@) =~= Seq::<SpecReserved>::empty());
        }
        r
    }
}

/// The model of an enum with the given name and nothing else.
pub open spec fn empty_enum(name: Seq<char>) -> SpecEnum {
    SpecEnum { name, values: Seq::empty(), options: Seq::empty() }
}

impl Enum {
    /// An enum with the given name and nothing else.
    pub fn new(name: String) -> (r: Self)
        ensures
            r@ == empty_enum(name@),
    {
        let r = Enum { name, values: Vec::new(), options: Vec::new() };
        proof {
            assert(r.values@.map_values(|v: EnumValue| v@) =~= Seq::<SpecEnumValue>::empty());
            assert(r.options@.map_values(|o: EnumValueOption| o@) =~= Seq::<SpecEnumValueOption>::empty());
        }
        r
    }
}

impl Service {
    /// A service with the given name and nothing else.
    pub fn new(name: String) -> (r: Self)
        ensures
            r@ == (SpecService { name: name@, methods: Seq::empty(), options: Seq::empty() }),
    {
        let r = Service { name, methods: Vec::new(), options: Vec::new() };
        proof {
            assert(r.methods@.map_values(|m: Method| m@) =~= Seq::<SpecMethod>::empty());
            assert(r.options@.map_values(|o: ProtoOption| o@) =~= Seq::<SpecProtoOption>::empty());
        }
        r
    }
}

impl ProtoOption {
    pub fn new(name: String, value: OptionValue) -> (r: Self)
        ensures
            r.name == name,
            r.value == value,
    {
        ProtoOption { name, value }
    }
}

} // verus!
