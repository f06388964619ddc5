use vstd::prelude::*;
use crate::endian::Endian;

verus! {

// ---------------------------------------------------------------- declarations

/// How the fields of a struct or variant are written down.
#[derive(Debug, Clone, Copy, PartialEq, Eq, Structural)]
pub enum Shape {
    /// No fields.
    Unit,
    /// Fields by position.
    Tuple,
    /// Fields by name.
    Named,
}

/// What a field or variant reads or writes before or after itself, as its
/// `before(..)` or `after(..)` attribute says.
#[derive(Debug)]
pub struct Behaviour {
    /// A constant: the text of its type and of its value.
    pub expect: Option<(String, String)>,
    /// Methods called when reading, in order.
    pub reads: Vec<String>,
    /// Methods called when writing, in order.
    pub writes: Vec<String>,
}

/// A field with its `binform` attributes.
#[derive(Debug)]
pub struct FieldDecl {
    /// The field's name; `None` for a field by position.
    pub name: Option<String>,
    /// The text of the field's type.
    pub ty: String,
    /// The field's own byte order, if it has one.
    pub endian: Option<Endian>,
    /// The type of the length prefix, for a sequence.
    pub len: Option<String>,
    /// A method that reads the field in place of its type's `from_bytes`.
    pub read: Option<String>,
    /// A method that writes the field in place of its type's `to_bytes`.
    pub write: Option<String>,
    pub before: Option<Behaviour>,
    pub after: Option<Behaviour>,
}

/// A variant of an enum with its `binform` attributes.
#[derive(Debug)]
pub struct VariantDecl {
    pub name: String,
    /// The text of the tag that stands for this variant.
    pub tag: String,
    pub shape: Shape,
    pub fields: Vec<FieldDecl>,
    pub before: Option<Behaviour>,
    pub after: Option<Behaviour>,
}

/// The body of a type that derives the formats.
#[derive(Debug)]
pub enum TypeBody {
    Struct { shape: Shape, fields: Vec<FieldDecl> },
    Enum { variants: Vec<VariantDecl> },
}

/// A type that derives `FromBytes` or `ToBytes`, with its attributes.
#[derive(Debug)]
pub struct TypeDecl {
    pub name: String,
    /// The byte order of the fields that name none.
    pub endian: Endian,
    /// The text of the type of an enum's tag.
    pub tag: Option<String>,
    /// Whether reading an enum prints the variant it reads.
    pub debug: bool,
    pub body: TypeBody,
}

// ---------------------------------------------------------------- plans

/// Which of the two impls a plan is for.
#[derive(Debug, Clone, Copy, PartialEq, Eq, Structural)]
pub enum Direction {
    Read,
    Write,
}

/// How a field's value is named while it is read or written.
#[derive(Debug, Clone, PartialEq, Eq)]
pub enum Binding {
    /// By the field's name.
    Named(String),
    /// As `_i`, for the field at position `i`.
    Position(usize),
}

/// One step of reading or writing a value, with the byte order and the
/// length prefix that it is done with.
#[derive(Debug, Clone, PartialEq, Eq)]
pub enum Step {
    /// Read the constant and check it, or write it.
    Expect { ty: String, value: String, endian: Endian, len: Option<String> },
    /// Call a method that reads or writes by itself.
    Call { method: String, endian: Endian, len: Option<String> },
    /// Read or write a field, with its type's format or with `method`.
    Field {
        binding: Binding,
        ty: String,
        endian: Endian,
        len: Option<String>,
        method: Option<String>,
    },
}

/// The steps for one variant of an enum.
#[derive(Debug)]
pub struct Arm {
    pub variant: String,
    pub tag: String,
    pub shape: Shape,
    pub steps: Vec<Step>,
}

#[derive(Debug)]
pub enum PlanBody {
    /// The steps, one after another.
    Struct { shape: Shape, steps: Vec<Step> },
    /// The tag of type `tag_ty`, then the steps of the arm with that tag;
    /// reading any other tag fails with `ReadError::UnknownTag`.
    Enum { tag_ty: String, arms: Vec<Arm> },
}

/// What a derived impl does, step by step.
#[derive(Debug)]
pub struct Plan {
    /// The byte order of the impl and of an enum's tag.
    pub endian: Endian,
    pub debug: bool,
    pub body: PlanBody,
}

/// Why no impl can be derived.
#[derive(Debug, Clone, Copy, PartialEq, Eq, Structural)]
pub enum DeriveError {
    /// An enum without a `tag` attribute.
    MissingTag,
}

pub struct ArmView {
    pub variant: String,
    pub tag: String,
    pub shape: Shape,
    pub steps: Seq<Step>,
}

pub enum PlanBodyView {
    Struct { shape: Shape, steps: Seq<Step> },
    Enum { tag_ty: String, arms: Seq<ArmView> },
}

pub struct PlanView {
    pub endian: Endian,
    pub debug: bool,
    pub body: PlanBodyView,
}

impl View for Arm {
    type V = ArmView;

    open spec fn view(&self) -> ArmView {
        ArmView { variant: self.variant, tag: self.tag, shape: self.shape, steps: self.steps@ }
    }
}

impl View for Plan {
    type V = PlanView;

    open spec fn view(&self) -> PlanView {
        PlanView {
            endian: self.endian,
            debug: self.debug,
            body: match self.body {
                PlanBody::Struct { shape, steps } => PlanBodyView::Struct { shape, steps: steps@ },
                PlanBody::Enum { tag_ty, arms } => PlanBodyView::Enum {
                    tag_ty,
                    arms: Seq::new(arms@.len(), |i: int| arms@[i]@),
                },
            },
        }
    }
}

// ---------------------------------------------------------------- the rules

/// A call of each method, in order.
pub open spec fn call_steps(methods: Seq<String>, endian: Endian, len: Option<String>) -> Seq<Step>
    decreases methods.len(),
{
    if methods.len() == 0 {
        seq![]
    } else {
        call_steps(methods.drop_last(), endian, len) + seq![
            Step::Call { method: methods.last(), endian, len },
        ]
    }
}

/// The steps of a behaviour: its constant first, then its methods for the
/// direction.
pub open spec fn behaviour_steps(
    b: Option<Behaviour>,
    dir: Direction,
    endian: Endian,
    len: Option<String>,
) -> Seq<Step> {
    match b {
        None => seq![],
        Some(b) => {
            let expect = match b.expect {
                Some((ty, value)) => seq![Step::Expect { ty, value, endian, len }],
                None => seq![],
            };
            let methods = match dir {
                Direction::Read => b.reads@,
                Direction::Write => b.writes@,
            };
            expect + call_steps(methods, endian, len)
        },
    }
}

/// The byte order of a field: its own, else the type's.
pub open spec fn field_endian(f: FieldDecl, default: Endian) -> Endian {
    match f.endian {
        Some(e) => e,
        None => default,
    }
}

/// The steps of the field at position `i`: its `before` behaviour, the field
/// itself, its `after` behaviour, all with the field's byte order and length
/// prefix.
pub open spec fn one_field_steps(f: FieldDecl, i: int, default: Endian, dir: Direction) -> Seq<
    Step,
> {
    let endian = field_endian(f, default);
    let binding = match f.name {
        Some(n) => Binding::Named(n),
        None => Binding::Position(i as usize),
    };
    let method = match dir {
        Direction::Read => f.read,
        Direction::Write => f.write,
    };
    behaviour_steps(f.before, dir, endian, f.len) + seq![
        Step::Field { binding, ty: f.ty, endian, len: f.len, method },
    ] + behaviour_steps(f.after, dir, endian, f.len)
}

/// The steps of the fields, in the order they are declared.
pub open spec fn spec_field_steps(fields: Seq<FieldDecl>, default: Endian, dir: Direction) -> Seq<
    Step,
>
    decreases fields.len(),
{
    if fields.len() == 0 {
        seq![]
    } else {
        spec_field_steps(fields.drop_last(), default, dir) + one_field_steps(
            fields.last(),
            fields.len() - 1,
            default,
            dir,
        )
    }
}

/// The steps of the fields of a struct or variant: none for a unit.
pub open spec fn shaped_steps(shape: Shape, fields: Seq<FieldDecl>, default: Endian, dir: Direction) -> Seq<
    Step,
> {
    if shape == Shape::Unit {
        seq![]
    } else {
        spec_field_steps(fields, default, dir)
    }
}

/// The arm of a variant: when reading, the variant's own `before` and
/// `after` behaviours around its fields; when writing, its fields alone.
pub open spec fn arm_view(v: VariantDecl, endian: Endian, dir: Direction) -> ArmView {
    let fields = shaped_steps(v.shape, v.fields@, endian, dir);
    ArmView {
        variant: v.name,
        tag: v.tag,
        shape: v.shape,
        steps: match dir {
            Direction::Read => behaviour_steps(v.before, dir, endian, None) + fields
                + behaviour_steps(v.after, dir, endian, None),
            Direction::Write => fields,
        },
    }
}

/// The plan of the impl for `dir`; an enum needs a tag type.
pub open spec fn spec_plan(d: TypeDecl, dir: Direction) -> Result<PlanView, DeriveError> {
    match d.body {
        TypeBody::Struct { shape, fields } => Ok(
            PlanView {
                endian: d.endian,
                debug: d.debug,
                body: PlanBodyView::Struct {
                    shape,
                    steps: shaped_steps(shape, fields@, d.endian, dir),
                },
            },
        ),
        TypeBody::Enum { variants } => match d.tag {
            None => Err(DeriveError::MissingTag),
            Some(tag_ty) => Ok(
                PlanView {
                    endian: d.endian,
                    debug: d.debug,
                    body: PlanBodyView::Enum {
                        tag_ty,
                        arms: Seq::new(variants@.len(), |i: int| arm_view(variants@[i], d.endian, dir)),
                    },
                },
            ),
        },
    }
}

// ---------------------------------------------------------------- computing plans

fn clone_text(o: &Option<String>) -> (r: Option<String>)
    ensures
        r == *o,
{
    match o {
        Some(t) => Some(t.clone()),
        None => None,
    }
}

/// Appends a call of each method to `out`.
fn push_calls(methods: &Vec<String>, endian: Endian, len: &Option<String>, out: &mut Vec<Step>)
    ensures
        final(out)@ == old(out)@ + call_steps(methods@, endian, *len),
{
    let mut i: usize = 0;
    while i < methods.len()
        invariant
            0 <= i <= methods@.len(),
            out@ == old(out)@ + call_steps(methods@.take(i as int), endian, *len),
        decreases methods@.len() - i,
    {
        let ghost before = out@;
        out.push(Step::Call { method: methods[i].clone(), endian, len: clone_text(len) });
        i = i + 1;
        proof {
            let taken = methods@.take(i as int);
            assert(taken.drop_last() =~= methods@.take(i - 1));
            assert(out@ =~= old(out)@ + call_steps(taken, endian, *len));
        }
    }
    assert(methods@.take(methods@.len() as int) =~= methods@);
}

/// Appends the steps of a behaviour to `out`.
fn push_behaviour(
    b: &Option<Behaviour>,
    dir: Direction,
    endian: Endian,
    len: &Option<String>,
    out: &mut Vec<Step>,
)
    ensures
        final(out)@ == old(out)@ + behaviour_steps(*b, dir, endian, *len),
{
    match b {
        None => {
            assert(out@ =~= old(out)@ + Seq::<Step>::empty());
        },
        Some(b) => {
            let ghost start = out@;
            let ghost bg: Behaviour = *b;
            match &b.expect {
                Some((ty, value)) => {
                    out.push(
                        Step::Expect {
                            ty: ty.clone(),
                            value: value.clone(),
                            endian,
                            len: clone_text(len),
                        },
                    );
                },
                None => {},
            }
            let ghost mid = out@;
            match dir {
                Direction::Read => push_calls(&b.reads, endian, len, out),
                Direction::Write => push_calls(&b.writes, endian, len, out),
            }
            proof {
                let expect = match bg.expect {
                    Some((ty, value)) => seq![Step::Expect { ty, value, endian, len: *len }],
                    None => seq![],
                };
                assert(mid =~= start + expect);
                let methods = match dir {
                    Direction::Read => bg.reads@,
                    Direction::Write => bg.writes@,
                };
                assert(out@ =~= start + (expect + call_steps(methods, endian, *len)));
            }
        },
    }
}

/// Appends the steps of the field at position `i` to `out`.
#[verifier::rlimit(40)]
fn push_field(f: &FieldDecl, i: usize, default: Endian, dir: Direction, out: &mut Vec<Step>)
    ensures
        final(out)@ == old(out)@ + one_field_steps(*f, i as int, default, dir),
{
    let endian = match f.endian {
        Some(e) => e,
        None => default,
    };
    let binding = match &f.name {
        Some(n) => Binding::Named(n.clone()),
        None => Binding::Position(i),
    };
    let method = match dir {
        Direction::Read => clone_text(&f.read),
        Direction::Write => clone_text(&f.write),
    };
    let ghost start = out@;
    let ghost fg: FieldDecl = *f;
    let ghost before = behaviour_steps(fg.before, dir, endian, fg.len);
    let ghost after = behaviour_steps(fg.after, dir, endian, fg.len);
    let step = Step::Field { binding, ty: f.ty.clone(), endian, len: clone_text(&f.len), method };
    proof {
        assert(endian == field_endian(fg, default));
        assert(step == Step::Field {
            binding: match fg.name {
                Some(n) => Binding::Named(n),
                None => Binding::Position(i as usize),
            },
            ty: fg.ty,
            endian,
            len: fg.len,
            method: match dir {
                Direction::Read => fg.read,
                Direction::Write => fg.write,
            },
        });
    }
    push_behaviour(&f.before, dir, endian, &f.len, out);
    let ghost mid = out@;
    out.push(step);
    let ghost mid2 = out@;
    push_behaviour(&f.after, dir, endian, &f.len, out);
    proof {
        assert(mid == start + before);
        assert(mid2 == mid.push(step));
        assert(out@ == mid2 + after);
        assert(one_field_steps(fg, i as int, default, dir) == before + seq![step] + after);
        assert(out@ =~= start + (before + seq![step] + after));
    }
}

/// The steps of the fields, in the order they are declared: for each, its
/// `before` behaviour, the field, its `after` behaviour, with the field's
/// own byte order or else `default`, and the field's length prefix.
pub fn field_steps(fields: &Vec<FieldDecl>, default: Endian, dir: Direction) -> (s: Vec<Step>)
    ensures
        s@ == spec_field_steps(fields@, default, dir),
{
    let mut out: Vec<Step> = Vec::new();
    let mut i: usize = 0;
    while i < fields.len()
        invariant
            0 <= i <= fields@.len(),
            out@ == spec_field_steps(fields@.take(i as int), default, dir),
        decreases fields@.len() - i,
    {
        let ghost start = out@;
        push_field(&fields[i], i, default, dir, &mut out);
        proof {
            let taken = fields@.take(i + 1);
            assert(taken.drop_last() =~= fields@.take(i as int));
            assert(taken.last() == fields@[i as int]);
        }
        i = i + 1;
    }
    assert(fields@.take(fields@.len() as int) =~= fields@);
    out
}

fn shaped_field_steps(shape: Shape, fields: &Vec<FieldDecl>, default: Endian, dir: Direction) -> (s: Vec<
    Step,
>)
    ensures
        s@ == shaped_steps(shape, fields@, default, dir),
{
    if shape == Shape::Unit {
        Vec::new()
    } else {
        field_steps(fields, default, dir)
    }
}

fn arm(v: &VariantDecl, endian: Endian, dir: Direction) -> (a: Arm)
    ensures
        a@ == arm_view(*v, endian, dir),
{
    let fields = shaped_field_steps(v.shape, &v.fields, endian, dir);
    let steps = match dir {
        Direction::Read => {
            let mut steps: Vec<Step> = Vec::new();
            let none: Option<String> = None;
            push_behaviour(&v.before, dir, endian, &none, &mut steps);
            let mut fields = fields;
            steps.append(&mut fields);
            push_behaviour(&v.after, dir, endian, &none, &mut steps);
            steps
        },
        Direction::Write => fields,
    };
    Arm { variant: v.name.clone(), tag: v.tag.clone(), shape: v.shape, steps }
}

fn plan(d: &TypeDecl, dir: Direction) -> (p: Result<Plan, DeriveError>)
    ensures
        match p {
            Ok(x) => spec_plan(*d, dir) == Ok::<PlanView, DeriveError>(x@),
            Err(e) => spec_plan(*d, dir) == Err::<PlanView, DeriveError>(e),
        },
{
    match &d.body {
        TypeBody::Struct { shape, fields } => {
            let steps = shaped_field_steps(*shape, fields, d.endian, dir);
            Ok(Plan { endian: d.endian, debug: d.debug, body: PlanBody::Struct { shape: *shape, steps } })
        },
        TypeBody::Enum { variants } => {
            let tag_ty = match &d.tag {
                Some(t) => t.clone(),
                None => return Err(DeriveError::MissingTag),
            };
            let mut arms: Vec<Arm> = Vec::new();
            let mut i: usize = 0;
            while i < variants.len()
                invariant
                    0 <= i <= variants@.len(),
                    arms@.len() == i,
                    forall|j: int| 0 <= j < i ==> #[trigger] arms@[j]@ == arm_view(variants@[j], d.endian, dir),
                decreases variants@.len() - i,
            {
                arms.push(arm(&variants[i], d.endian, dir));
                i = i + 1;
            }
            let p = Plan { endian: d.endian, debug: d.debug, body: PlanBody::Enum { tag_ty, arms } };
            proof {
                assert(Seq::new(arms@.len(), |j: int| arms@[j]@) =~= Seq::new(
                    variants@.len(),
                    |j: int| arm_view(variants@[j], d.endian, dir),
                ));
            }
            Ok(p)
        },
    }
}

/// The plan of the `FromBytes` impl; an enum without a tag type has none.
pub fn read_plan(d: &TypeDecl) -> (p: Result<Plan, DeriveError>)
    ensures
        p is Err <==> (d.body is Enum && d.tag is None),
        match p {
            Ok(x) => spec_plan(*d, Direction::Read) == Ok::<PlanView, DeriveError>(x@),
            Err(e) => e == DeriveError::MissingTag,
        },
{
    plan(d, Direction::Read)
}

/// The plan of the `ToBytes` impl; an enum without a tag type has none.
pub fn write_plan(d: &TypeDecl) -> (p: Result<Plan, DeriveError>)
    ensures
        p is Err <==> (d.body is Enum && d.tag is None),
        match p {
            Ok(x) => spec_plan(*d, Direction::Write) == Ok::<PlanView, DeriveError>(x@),
            Err(e) => e == DeriveError::MissingTag,
        },
{
    plan(d, Direction::Write)
}

// ---------------------------------------------------------------- reads match writes

/// What a step checks in the bytes or puts into them, leaving out the methods
/// that read or write by themselves: constants and fields, each with its byte
/// order and length prefix.
pub enum DataStep {
    Expect { ty: String, value: String, endian: Endian, len: Option<String> },
    Field { binding: Binding, ty: String, endian: Endian, len: Option<String> },
}

/// The constant or field of one step, if it has one.
pub open spec fn data_of(step: Step) -> Seq<DataStep> {
    match step {
        Step::Expect { ty, value, endian, len } => seq![DataStep::Expect { ty, value, endian, len }],
        Step::Call { .. } => seq![],
        Step::Field { binding, ty, endian, len, .. } => seq![
            DataStep::Field { binding, ty, endian, len },
        ],
    }
}

/// The constants and fields of `steps`, in order.
pub open spec fn data_steps(steps: Seq<Step>) -> Seq<DataStep>
    decreases steps.len(),
{
    if steps.len() == 0 {
        seq![]
    } else {
        data_steps(steps.drop_last()) + data_of(steps.last())
    }
}

proof fn lemma_data_one(x: Step)
    ensures
        data_steps(seq![x]) == data_of(x),
{
    assert(seq![x].drop_last() =~= Seq::<Step>::empty());
    assert(data_steps(Seq::<Step>::empty()) == Seq::<DataStep>::empty());
    assert(Seq::<DataStep>::empty() + data_of(x) =~= data_of(x));
}

/// Whether a behaviour has a constant.
pub open spec fn has_expect(b: Option<Behaviour>) -> bool {
    b matches Some(b) && b.expect is Some
}

proof fn lemma_data_concat(a: Seq<Step>, b: Seq<Step>)
    ensures
        data_steps(a + b) == data_steps(a) + data_steps(b),
    decreases b.len(),
{
    if b.len() == 0 {
        assert(a + b =~= a);
        assert(data_steps(a) + Seq::<DataStep>::empty() =~= data_steps(a));
    } else {
        lemma_data_concat(a, b.drop_last());
        assert((a + b).drop_last() =~= a + b.drop_last());
        assert((a + b).last() == b.last());
        assert(data_steps(a) + data_steps(b.drop_last()) + data_of(b.last()) =~= data_steps(a) + (
        data_steps(b.drop_last()) + data_of(b.last())));
    }
}

proof fn lemma_data_calls(methods: Seq<String>, endian: Endian, len: Option<String>)
    ensures
        data_steps(call_steps(methods, endian, len)) == Seq::<DataStep>::empty(),
    decreases methods.len(),
{
    if methods.len() > 0 {
        lemma_data_calls(methods.drop_last(), endian, len);
        let c = Step::Call { method: methods.last(), endian, len };
        lemma_data_concat(call_steps(methods.drop_last(), endian, len), seq![c]);
        lemma_data_one(c);
        assert(Seq::<DataStep>::empty() + Seq::<DataStep>::empty() =~= Seq::<DataStep>::empty());
    } else {
        assert(call_steps(methods, endian, len) == Seq::<Step>::empty());
    }
}

proof fn lemma_data_behaviour(b: Option<Behaviour>, endian: Endian, len: Option<String>)
    ensures
        data_steps(behaviour_steps(b, Direction::Read, endian, len)) == data_steps(
            behaviour_steps(b, Direction::Write, endian, len),
        ),
        !has_expect(b) ==> data_steps(behaviour_steps(b, Direction::Read, endian, len))
            == Seq::<DataStep>::empty(),
{
    if let Some(bb) = b {
        let expect = match bb.expect {
            Some((ty, value)) => seq![Step::Expect { ty, value, endian, len }],
            None => seq![],
        };
        lemma_data_calls(bb.reads@, endian, len);
        lemma_data_calls(bb.writes@, endian, len);
        lemma_data_concat(expect, call_steps(bb.reads@, endian, len));
        lemma_data_concat(expect, call_steps(bb.writes@, endian, len));
        assert(data_steps(expect) + Seq::<DataStep>::empty() =~= data_steps(expect));
        if bb.expect is None {
            assert(data_steps(expect) =~= Seq::<DataStep>::empty());
        }
    }
}

proof fn lemma_data_fields(fields: Seq<FieldDecl>, default: Endian)
    ensures
        data_steps(spec_field_steps(fields, default, Direction::Read)) == data_steps(
            spec_field_steps(fields, default, Direction::Write),
        ),
    decreases fields.len(),
{
    if fields.len() > 0 {
        let f = fields.last();
        let i = fields.len() - 1;
        lemma_data_fields(fields.drop_last(), default);
        let endian = field_endian(f, default);
        lemma_data_behaviour(f.before, endian, f.len);
        lemma_data_behaviour(f.after, endian, f.len);
        let binding = match f.name {
            Some(n) => Binding::Named(n),
            None => Binding::Position(i as usize),
        };
        let sr = Step::Field { binding, ty: f.ty, endian, len: f.len, method: f.read };
        let sw = Step::Field { binding, ty: f.ty, endian, len: f.len, method: f.write };
        let fr = seq![sr];
        let fw = seq![sw];
        lemma_data_one(sr);
        lemma_data_one(sw);
        assert(data_steps(fr) == data_steps(fw));
        let br = behaviour_steps(f.before, Direction::Read, endian, f.len);
        let bw = behaviour_steps(f.before, Direction::Write, endian, f.len);
        let ar = behaviour_steps(f.after, Direction::Read, endian, f.len);
        let aw = behaviour_steps(f.after, Direction::Write, endian, f.len);
        lemma_data_concat(br, fr);
        lemma_data_concat(br + fr, ar);
        lemma_data_concat(bw, fw);
        lemma_data_concat(bw + fw, aw);
        let pr = spec_field_steps(fields.drop_last(), default, Direction::Read);
        let pw = spec_field_steps(fields.drop_last(), default, Direction::Write);
        lemma_data_concat(pr, br + fr + ar);
        lemma_data_concat(pw, bw + fw + aw);
    }
}

/// Reading and writing put the constants and the fields at the same places:
/// the read impl checks each constant, and reads each field, where the write
/// impl writes it, with the same type, byte order and length prefix. For an
/// enum this holds of every variant whose own `before` and `after` carry no
/// constant (the write impl leaves such a variant's constants out).
pub proof fn law_expectations_in_place(d: TypeDecl)
    ensures
        (spec_plan(d, Direction::Read) is Ok) == (spec_plan(d, Direction::Write) is Ok),
        d.body matches TypeBody::Struct { shape, fields } ==> data_steps(
            shaped_steps(shape, fields@, d.endian, Direction::Read),
        ) == data_steps(shaped_steps(shape, fields@, d.endian, Direction::Write)),
        d.body matches TypeBody::Enum { variants } ==> forall|i: int|
            0 <= i < variants@.len() && !has_expect(variants@[i].before) && !has_expect(
                variants@[i].after,
            ) ==> data_steps(#[trigger] arm_view(variants@[i], d.endian, Direction::Read).steps)
                == data_steps(arm_view(variants@[i], d.endian, Direction::Write).steps),
{
    match d.body {
        TypeBody::Struct { shape, fields } => {
            lemma_data_fields(fields@, d.endian);
        },
        TypeBody::Enum { variants } => {
            assert forall|i: int|
                0 <= i < variants@.len() && !has_expect(variants@[i].before) && !has_expect(
                    variants@[i].after,
                ) implies data_steps(#[trigger] arm_view(variants@[i], d.endian, Direction::Read).steps)
                == data_steps(arm_view(variants@[i], d.endian, Direction::Write).steps) by {
                let v = variants@[i];
                lemma_data_fields(v.fields@, d.endian);
                lemma_data_behaviour(v.before, d.endian, None);
                lemma_data_behaviour(v.after, d.endian, None);
                let fr = shaped_steps(v.shape, v.fields@, d.endian, Direction::Read);
                let br = behaviour_steps(v.before, Direction::Read, d.endian, None);
                let ar = behaviour_steps(v.after, Direction::Read, d.endian, None);
                lemma_data_concat(br, fr);
                lemma_data_concat(br + fr, ar);
                assert(Seq::<DataStep>::empty() + data_steps(fr) + Seq::<DataStep>::empty() =~= data_steps(fr));
            }
        },
    }
}

// ---------------------------------------------------------------- laws of plans

/// The byte order that a step is done with.
pub open spec fn step_endian(s: Step) -> Endian {
    match s {
        Step::Expect { endian, .. } => endian,
        Step::Call { endian, .. } => endian,
        Step::Field { endian, .. } => endian,
    }
}

/// The length prefix that a step is done with.
pub open spec fn step_len(s: Step) -> Option<String> {
    match s {
        Step::Expect { len, .. } => len,
        Step::Call { len, .. } => len,
        Step::Field { len, .. } => len,
    }
}

proof fn lemma_calls_carry(methods: Seq<String>, endian: Endian, len: Option<String>)
    ensures
        forall|j: int|
            0 <= j < call_steps(methods, endian, len).len() ==> {
                let s = #[trigger] call_steps(methods, endian, len)[j];
                &&& step_endian(s) == endian
                &&& step_len(s) == len
                &&& s is Call
            },
    decreases methods.len(),
{
    if methods.len() > 0 {
        lemma_calls_carry(methods.drop_last(), endian, len);
        let prev = call_steps(methods.drop_last(), endian, len);
        assert forall|j: int| 0 <= j < call_steps(methods, endian, len).len() implies {
            let s = #[trigger] call_steps(methods, endian, len)[j];
            &&& step_endian(s) == endian
            &&& step_len(s) == len
            &&& s is Call
        } by {
            if j < prev.len() {
                assert(call_steps(methods, endian, len)[j] == prev[j]);
            }
        }
    }
}

proof fn lemma_behaviour_carries(b: Option<Behaviour>, dir: Direction, endian: Endian, len: Option<String>)
    ensures
        forall|j: int|
            0 <= j < behaviour_steps(b, dir, endian, len).len() ==> {
                let s = #[trigger] behaviour_steps(b, dir, endian, len)[j];
                &&& step_endian(s) == endian
                &&& step_len(s) == len
                &&& !(s is Field)
            },
{
    if let Some(bb) = b {
        let expect = match bb.expect {
            Some((ty, value)) => seq![Step::Expect { ty, value, endian, len }],
            None => seq![],
        };
        let methods = match dir {
            Direction::Read => bb.reads@,
            Direction::Write => bb.writes@,
        };
        lemma_calls_carry(methods, endian, len);
        let all = behaviour_steps(b, dir, endian, len);
        assert(all == expect + call_steps(methods, endian, len));
        assert forall|j: int| 0 <= j < all.len() implies {
            let s = #[trigger] all[j];
            &&& step_endian(s) == endian
            &&& step_len(s) == len
            &&& !(s is Field)
        } by {
            if j >= expect.len() {
                assert(all[j] == call_steps(methods, endian, len)[j - expect.len()]);
            }
        }
    }
}

/// The steps of one field are all done with the field's own byte order (or
/// the type's, when the field names none) and the field's length prefix, and
/// the field itself is read or written by exactly those steps that are field
/// steps: with its binding, its type, and the method for the direction.
pub proof fn law_field_block(f: FieldDecl, i: int, default: Endian, dir: Direction)
    ensures
        forall|j: int|
            0 <= j < one_field_steps(f, i, default, dir).len() ==> {
                let s = #[trigger] one_field_steps(f, i, default, dir)[j];
                &&& step_endian(s) == field_endian(f, default)
                &&& step_len(s) == f.len
                &&& s is Field ==> s == Step::Field {
                    binding: match f.name {
                        Some(n) => Binding::Named(n),
                        None => Binding::Position(i as usize),
                    },
                    ty: f.ty,
                    endian: field_endian(f, default),
                    len: f.len,
                    method: match dir {
                        Direction::Read => f.read,
                        Direction::Write => f.write,
                    },
                }
            },
        exists|j: int| 0 <= j < one_field_steps(f, i, default, dir).len() && (#[trigger] one_field_steps(f, i, default, dir)[j]) is Field,
{
    let endian = field_endian(f, default);
    let before = behaviour_steps(f.before, dir, endian, f.len);
    let after = behaviour_steps(f.after, dir, endian, f.len);
    lemma_behaviour_carries(f.before, dir, endian, f.len);
    lemma_behaviour_carries(f.after, dir, endian, f.len);
    let binding = match f.name {
        Some(n) => Binding::Named(n),
        None => Binding::Position(i as usize),
    };
    let method = match dir {
        Direction::Read => f.read,
        Direction::Write => f.write,
    };
    let step = Step::Field { binding, ty: f.ty, endian, len: f.len, method };
    let all = one_field_steps(f, i, default, dir);
    assert(all == before + seq![step] + after);
    assert forall|j: int| 0 <= j < all.len() implies {
        let s = #[trigger] all[j];
        &&& step_endian(s) == endian
        &&& step_len(s) == f.len
        &&& s is Field ==> s == step
    } by {
        if j < before.len() {
            assert(all[j] == before[j]);
        } else if j == before.len() {
            assert(all[j] == step);
        } else {
            assert(all[j] == after[j - before.len() - 1]);
        }
    }
    assert(all[before.len() as int] == step);
}

proof fn lemma_field_steps_prefix(fields: Seq<FieldDecl>, k: int, default: Endian, dir: Direction)
    requires
        0 <= k <= fields.len(),
    ensures
        spec_field_steps(fields.take(k), default, dir).len() <= spec_field_steps(fields, default, dir).len(),
        spec_field_steps(fields, default, dir).take(spec_field_steps(fields.take(k), default, dir).len() as int)
            == spec_field_steps(fields.take(k), default, dir),
    decreases fields.len(),
{
    let all = spec_field_steps(fields, default, dir);
    if k == fields.len() {
        assert(fields.take(k) =~= fields);
        assert(all.take(all.len() as int) =~= all);
    } else {
        let init = fields.drop_last();
        lemma_field_steps_prefix(init, k, default, dir);
        assert(init.take(k) =~= fields.take(k));
        let pre = spec_field_steps(fields.take(k), default, dir);
        let mid = spec_field_steps(init, default, dir);
        assert(all == mid + one_field_steps(fields.last(), fields.len() - 1, default, dir));
        assert(all.take(pre.len() as int) =~= mid.take(pre.len() as int));
    }
}

/// The steps of the fields are the blocks of the fields one after another, in
/// the order they are declared: the block of field `k` starts where the
/// blocks of the fields before it end. With `law_field_block`, every step of
/// field `k` is done with field `k`'s byte order and length prefix.
pub proof fn law_field_steps_in_order(fields: Seq<FieldDecl>, default: Endian, dir: Direction)
    ensures
        forall|k: int|
            0 <= k < fields.len() ==> {
                let pre = spec_field_steps(fields.take(k), default, dir);
                let block = #[trigger] one_field_steps(fields[k], k, default, dir);
                spec_field_steps(fields, default, dir).subrange(
                    pre.len() as int,
                    ((pre.len() + block.len()) as int) as int,
                ) == block
            },
{
    let all = spec_field_steps(fields, default, dir);
    assert forall|k: int| 0 <= k < fields.len() implies {
        let pre = spec_field_steps(fields.take(k), default, dir);
        let block = #[trigger] one_field_steps(fields[k], k, default, dir);
        all.subrange(pre.len() as int, (pre.len() + block.len()) as int) == block
    } by {
        let pre = spec_field_steps(fields.take(k), default, dir);
        let block = one_field_steps(fields[k], k, default, dir);
        let upto = fields.take(k + 1);
        assert(upto.drop_last() =~= fields.take(k));
        assert(upto.last() == fields[k]);
        lemma_field_steps_prefix(fields, k + 1, default, dir);
        let with = spec_field_steps(upto, default, dir);
        assert(with == pre + block);
        assert(all.take(with.len() as int) == with);
        assert(all.subrange(pre.len() as int, (pre.len() + block.len()) as int) =~= with.subrange(
            pre.len() as int,
            ((pre.len() + block.len()) as int) as int,
        ));
        assert(with.subrange(pre.len() as int, (pre.len() + block.len()) as int) =~= block);
    }
}

/// A plan is for the byte order that the type declares: the impl's byte
/// order, and that of an enum's tag, is the type's, for enums as for structs.
/// The arms of an enum's plan are its variants, in the order declared, with
/// their names and tags.
pub proof fn law_plan_byte_order(d: TypeDecl, dir: Direction)
    ensures
        spec_plan(d, dir) matches Ok(p) ==> p.endian == d.endian && p.debug == d.debug,
        d.body matches TypeBody::Enum { variants } ==> (spec_plan(d, dir) matches Ok(p) ==> (
        p.body matches PlanBodyView::Enum { tag_ty, arms } && Some(tag_ty) == d.tag && arms.len()
            == variants@.len() && forall|i: int|
            0 <= i < arms.len() ==> (#[trigger] arms[i]).variant == variants@[i].name && arms[i].tag
                == variants@[i].tag && arms[i].shape == variants@[i].shape)),
{
}

/// The arm of a variant, when read, is the variant's `before` steps, then the
/// steps of its fields in declaration order, then its `after` steps: no step
/// of the `after` behaviour comes ahead of a field. Written, the arm is the
/// steps of its fields alone.
pub proof fn law_read_arm_order(d: TypeDecl)
    ensures
        d.body matches TypeBody::Enum { variants } ==> (spec_plan(d, Direction::Read) matches Ok(p)
            ==> (p.body matches PlanBodyView::Enum { arms, .. } && arms.len() == variants@.len()
            && forall|i: int|
            0 <= i < arms.len() ==> {
                let v = variants@[i];
                let steps = (#[trigger] arms[i]).steps;
                let b = behaviour_steps(v.before, Direction::Read, d.endian, None);
                let f = shaped_steps(v.shape, v.fields@, d.endian, Direction::Read);
                let a = behaviour_steps(v.after, Direction::Read, d.endian, None);
                &&& steps.len() == b.len() + f.len() + a.len()
                &&& steps.take(b.len() as int) == b
                &&& steps.subrange(b.len() as int, (b.len() + f.len()) as int) == f
                &&& steps.skip((b.len() + f.len()) as int) == a
            })),
        d.body matches TypeBody::Enum { variants } ==> (spec_plan(d, Direction::Write) matches Ok(
            p,
        ) ==> (p.body matches PlanBodyView::Enum { arms, .. } && arms.len() == variants@.len()
            && forall|i: int|
            0 <= i < arms.len() ==> (#[trigger] arms[i]).steps == shaped_steps(
                variants@[i].shape,
                variants@[i].fields@,
                d.endian,
                Direction::Write,
            ))),
{
    if let TypeBody::Enum { variants } = d.body {
        if let Ok(p) = spec_plan(d, Direction::Read) {
            if let PlanBodyView::Enum { arms, .. } = p.body {
                assert forall|i: int| 0 <= i < arms.len() implies {
                    let v = variants@[i];
                    let steps = (#[trigger] arms[i]).steps;
                    let b = behaviour_steps(v.before, Direction::Read, d.endian, None);
                    let f = shaped_steps(v.shape, v.fields@, d.endian, Direction::Read);
                    let a = behaviour_steps(v.after, Direction::Read, d.endian, None);
                    &&& steps.len() == b.len() + f.len() + a.len()
                    &&& steps.take(b.len() as int) == b
                    &&& steps.subrange(b.len() as int, (b.len() + f.len()) as int) == f
                    &&& steps.skip((b.len() + f.len()) as int) == a
                } by {
                    let v = variants@[i];
                    let b = behaviour_steps(v.before, Direction::Read, d.endian, None);
                    let f = shaped_steps(v.shape, v.fields@, d.endian, Direction::Read);
                    let a = behaviour_steps(v.after, Direction::Read, d.endian, None);
                    let steps = arms[i].steps;
                    assert(steps == b + f + a);
                    assert(steps.take(b.len() as int) =~= b);
                    assert(steps.subrange(b.len() as int, (b.len() + f.len()) as int) =~= f);
                    assert(steps.skip((b.len() + f.len()) as int) =~= a);
                }
            }
        }
    }
}

} // verus!
