//! The values of a scene description and the checks on them.
//!
//! A description names values (numbers, vectors, materials) and declares
//! surfaces, materials and presets by giving named parameters to a
//! creator.  Here are the values, the table of variables, and the check of a
//! set of parameters against what a creator takes.

use vstd::prelude::*;
use crate::vec3::Vec3;

verus! {

/// The kind of a value.
#[derive(Clone, Copy, Debug, PartialEq, Eq, Structural)]
pub enum SceneObjectKind {
    Float,
    Vec3,
    Material,
}

/// A value: a single-precision number by its bits, a vector, or the handle
/// of a material.
#[derive(Clone, Copy, Debug, PartialEq, Eq, Structural)]
pub enum SceneObject {
    Float(u32),
    Vec3(Vec3),
    Material(usize),
}

/// A value, or the name of a variable that holds one.
#[derive(Clone, Debug)]
pub enum SceneObjectOrIdentifier {
    SceneObject(SceneObject),
    Identifier(String),
}

/// One parameter that a creator takes: its name, the kind of value it
/// wants, and whether it must be given.
#[derive(Clone, Debug)]
pub struct Parameter {
    pub name: String,
    pub kind: SceneObjectKind,
    pub required: bool,
}

/// What is wrong with a description.
#[derive(Clone, Debug)]
pub enum SceneError {
    /// The parameter of this name holds a value of the wrong kind.
    TypeMismatch(String),
    /// The parameter of this name must be given and is not.
    ArgMissing(String),
    /// A parameter is given that the creator does not take.
    ExtraneousParameters,
    /// No variable has this name.
    UnknownIdentifier(String),
}

impl SceneObject {
    pub open spec fn spec_kind(&self) -> SceneObjectKind {
        match *self {
            SceneObject::Float(_) => SceneObjectKind::Float,
            SceneObject::Vec3(_) => SceneObjectKind::Vec3,
            SceneObject::Material(_) => SceneObjectKind::Material,
        }
    }

    #[verifier::when_used_as_spec(spec_kind)]
    pub fn kind(&self) -> (r: SceneObjectKind)
        ensures
            r == self.spec_kind(),
    {
        match self {
            SceneObject::Float(_) => SceneObjectKind::Float,
            SceneObject::Vec3(_) => SceneObjectKind::Vec3,
            SceneObject::Material(_) => SceneObjectKind::Material,
        }
    }
}

/// The value that the first entry of the given name holds.
pub open spec fn lookup(entries: Seq<(String, SceneObject)>, name: Seq<char>) -> Option<
    SceneObject,
>
    decreases entries.len(),
{
    if entries.len() == 0 {
        None
    } else if entries[0].0@ == name {
        Some(entries[0].1)
    } else {
        lookup(entries.skip(1), name)
    }
}

/// No name occurs twice.
pub open spec fn distinct_names(entries: Seq<(String, SceneObject)>) -> bool {
    forall|i: int, j: int|
        0 <= i < j < entries.len() ==> (#[trigger] entries[i]).0@ != (#[trigger] entries[j]).0@
}

/// The creator takes a parameter of this name.
pub open spec fn takes(prototype: Seq<Parameter>, name: Seq<char>) -> bool {
    exists|i: int| 0 <= i < prototype.len() && (#[trigger] prototype[i]).name@ == name
}

/// A parameter of the prototype is met: a value given under its name has
/// its kind, and a value is given if it must be.
pub open spec fn satisfied(entry: Parameter, params: Seq<(String, SceneObject)>) -> bool {
    match lookup(params, entry.name@) {
        Some(value) => value.spec_kind() == entry.kind,
        None => !entry.required,
    }
}

/// The first `n` parameters of the prototype are met.
pub open spec fn all_satisfied(
    prototype: Seq<Parameter>,
    params: Seq<(String, SceneObject)>,
    n: int,
) -> bool {
    forall|i: int| 0 <= i < n ==> satisfied(#[trigger] prototype[i], params)
}

/// The first `n` values are given under names that the creator takes.
pub open spec fn all_taken(
    prototype: Seq<Parameter>,
    params: Seq<(String, SceneObject)>,
    n: int,
) -> bool {
    forall|j: int| 0 <= j < n ==> takes(prototype, (#[trigger] params[j]).0@)
}

/// Looks a name up among named values.
pub fn find(entries: &Vec<(String, SceneObject)>, name: &String) -> (r: Option<SceneObject>)
    ensures
        r == lookup(entries@, name@),
{
    let mut i: usize = 0;
    assert(entries@.skip(0) =~= entries@);
    while i < entries.len()
        invariant
            0 <= i <= entries@.len(),
            lookup(entries@, name@) == lookup(entries@.skip(i as int), name@),
        decreases entries@.len() - i,
    {
        if entries[i].0 == *name {
            assert(entries@.skip(i as int)[0] == entries@[i as int]);
            return Some(entries[i].1);
        }
        assert(entries@.skip(i as int)[0] == entries@[i as int]);
        assert(entries@.skip(i as int).skip(1) =~= entries@.skip(i + 1));
        i = i + 1;
    }
    assert(entries@.skip(i as int).len() == 0);
    None
}

/// Tells whether the creator takes a parameter of the given name.
fn prototype_takes(prototype: &Vec<Parameter>, name: &String) -> (r: bool)
    ensures
        r == takes(prototype@, name@),
{
    let mut i: usize = 0;
    while i < prototype.len()
        invariant
            0 <= i <= prototype@.len(),
            forall|k: int| 0 <= k < i ==> (#[trigger] prototype@[k]).name@ != name@,
        decreases prototype@.len() - i,
    {
        if prototype[i].name == *name {
            return true;
        }
        i = i + 1;
    }
    false
}

/// Checks the values given to a creator against what it takes.
///
/// The check passes exactly when every parameter of the prototype is met
/// and no value is given under a name that the creator does not take.  The
/// error names the first parameter of the prototype that is not met; if all
/// are met, it says that a value is extraneous.
pub fn typecheck_params(prototype: &Vec<Parameter>, params: &Vec<(String, SceneObject)>) -> (r:
    Result<(), SceneError>)
    ensures
        r is Ok <==> all_satisfied(prototype@, params@, prototype@.len() as int) && all_taken(
            prototype@,
            params@,
            params@.len() as int,
        ),
        r matches Err(SceneError::TypeMismatch(name)) ==> exists|i: int|
            0 <= i < prototype@.len() && all_satisfied(prototype@, params@, i) && (
            #[trigger] prototype@[i]).name@ == name@ && lookup(params@, name@) is Some && lookup(
                params@,
                name@,
            )->0.spec_kind() != prototype@[i].kind,
        r matches Err(SceneError::ArgMissing(name)) ==> exists|i: int|
            0 <= i < prototype@.len() && all_satisfied(prototype@, params@, i) && (
            #[trigger] prototype@[i]).name@ == name@ && prototype@[i].required && lookup(
                params@,
                name@,
            ) is None,
        r matches Err(SceneError::ExtraneousParameters) ==> all_satisfied(
            prototype@,
            params@,
            prototype@.len() as int,
        ) && !all_taken(prototype@, params@, params@.len() as int),
        !(r matches Err(SceneError::UnknownIdentifier(_))),
{
    let mut i: usize = 0;
    while i < prototype.len()
        invariant
            0 <= i <= prototype@.len(),
            all_satisfied(prototype@, params@, i as int),
        decreases prototype@.len() - i,
    {
        let entry = &prototype[i];
        match find(params, &entry.name) {
            Some(value) => {
                if value.kind() != entry.kind {
                    let name = entry.name.clone();
                    assert(!satisfied(prototype@[i as int], params@));
                    assert(prototype@[i as int].name@ == name@ && lookup(params@, name@)
                        == Some(value));
                    return Err(SceneError::TypeMismatch(name));
                }
            },
            None => {
                if entry.required {
                    let name = entry.name.clone();
                    assert(!satisfied(prototype@[i as int], params@));
                    assert(prototype@[i as int].name@ == name@ && lookup(params@, name@) is None);
                    return Err(SceneError::ArgMissing(name));
                }
            },
        }
        i = i + 1;
    }
    let mut j: usize = 0;
    while j < params.len()
        invariant
            0 <= j <= params@.len(),
            all_satisfied(prototype@, params@, prototype@.len() as int),
            all_taken(prototype@, params@, j as int),
        decreases params@.len() - j,
    {
        if !prototype_takes(prototype, &params[j].0) {
            assert(!takes(prototype@, params@[j as int].0@));
            return Err(SceneError::ExtraneousParameters);
        }
        j = j + 1;
    }
    Ok(())
}

/// The variables of a description.
#[derive(Debug, Default)]
pub struct SceneDescriptionBuilder {
    pub variables: Vec<(String, SceneObject)>,
}

impl SceneDescriptionBuilder {
    /// The table holds each variable once: no name occurs twice in it.
    pub open spec fn wf(&self) -> bool {
        distinct_names(self.variables@)
    }

    /// A builder without variables.
    pub fn new() -> (r: SceneDescriptionBuilder)
        ensures
            r.variables@.len() == 0,
            r.wf(),
    {
        SceneDescriptionBuilder { variables: Vec::new() }
    }

    /// The value of a variable.
    pub fn get_variable(&self, name: &String) -> (r: Option<SceneObject>)
        ensures
            r == lookup(self.variables@, name@),
    {
        find(&self.variables, name)
    }

    /// What a parameter stands for: itself if it is a value, and the value
    /// of the variable if it is a name.
    pub open spec fn resolve(&self, object: SceneObjectOrIdentifier) -> Option<SceneObject> {
        match object {
            SceneObjectOrIdentifier::SceneObject(value) => Some(value),
            SceneObjectOrIdentifier::Identifier(id) => lookup(self.variables@, id@),
        }
    }

    /// Gives the variable `name` the value that `object` stands for.
    ///
    /// A variable that exists takes the new value, a new one is added, and
    /// the table goes on holding each variable once.  Where `object` names
    /// a variable that does not exist, nothing changes and the error names
    /// it.
    pub fn register_variable(&mut self, name: String, object: SceneObjectOrIdentifier) -> (r:
        Result<(), SceneError>)
        ensures
            old(self).wf() ==> final(self).wf(),
            match old(self).resolve(object) {
                Some(value) => {
                    &&& r is Ok
                    &&& lookup(final(self).variables@, name@) == Some(value)
                    &&& forall|other: Seq<char>|
                        other != name@ ==> lookup(final(self).variables@, other) == lookup(
                            old(self).variables@,
                            other,
                        )
                },
                None => {
                    &&& r matches Err(SceneError::UnknownIdentifier(id))
                    &&& object matches SceneObjectOrIdentifier::Identifier(given)
                    &&& id@ == given@
                    &&& final(self).variables@ == old(self).variables@
                },
            },
    {
        let value = match object {
            SceneObjectOrIdentifier::SceneObject(value) => value,
            SceneObjectOrIdentifier::Identifier(id) => {
                match find(&self.variables, &id) {
                    Some(value) => value,
                    None => {
                        return Err(SceneError::UnknownIdentifier(id));
                    },
                }
            },
        };
        let mut i: usize = 0;
        while i < self.variables.len()
            invariant
                0 <= i <= self.variables@.len(),
                self.variables@ == old(self).variables@,
                old(self).resolve(object) == Some(value),
                forall|k: int| 0 <= k < i ==> (#[trigger] self.variables@[k]).0@ != name@,
            decreases self.variables@.len() - i,
        {
            if self.variables[i].0 == name {
                let ghost before = self.variables@;
                let ghost given = name@;
                self.variables.set(i, (name, value));
                proof {
                    assert(before[i as int].0@ == given);
                    lemma_lookup_update(before, i as int, value, self.variables@);
                    let after = self.variables@;
                    assert forall|a: int, b: int| 0 <= a < b < after.len() && distinct_names(
                        before,
                    ) implies (#[trigger] after[a]).0@ != (#[trigger] after[b]).0@ by {
                        assert(after[a].0@ == before[a].0@);
                        assert(after[b].0@ == before[b].0@);
                    }
                }
                return Ok(());
            }
            i = i + 1;
        }
        let ghost before = self.variables@;
        let ghost given = name@;
        self.variables.push((name, value));
        proof {
            assert(self.variables@[before.len() as int].0@ == given);
            lemma_lookup_push(before, self.variables@);
            let after = self.variables@;
            assert forall|a: int, b: int| 0 <= a < b < after.len() && distinct_names(
                before,
            ) implies (#[trigger] after[a]).0@ != (#[trigger] after[b]).0@ by {
                if b < before.len() {
                    assert(after[a] == before[a] && after[b] == before[b]);
                } else {
                    assert(after[a] == before[a]);
                }
            }
        }
        Ok(())
    }

    /// The values that the parameters stand for, under the same names and
    /// in the same order.  Where a parameter names a variable that does not
    /// exist, the error names the first such variable.
    pub fn extract_params(&self, params: Vec<(String, SceneObjectOrIdentifier)>) -> (r: Result<
        Vec<(String, SceneObject)>,
        SceneError,
    >)
        ensures
            r matches Ok(values) ==> {
                &&& values@.len() == params@.len()
                &&& forall|i: int|
                    0 <= i < params@.len() ==> (#[trigger] values@[i]).0@ == params@[i].0@
                        && self.resolve(params@[i].1) == Some(values@[i].1)
            },
            r matches Err(error) ==> exists|i: int|
                0 <= i < params@.len() && self.resolve((#[trigger] params@[i]).1) is None && (
                forall|k: int| 0 <= k < i ==> self.resolve((#[trigger] params@[k]).1) is Some) && (
                error matches SceneError::UnknownIdentifier(id) && params@[i].1
                    matches SceneObjectOrIdentifier::Identifier(given) && id@ == given@),
            r is Ok <==> forall|i: int|
                0 <= i < params@.len() ==> self.resolve((#[trigger] params@[i]).1) is Some,
    {
        let mut values: Vec<(String, SceneObject)> = Vec::new();
        let mut i: usize = 0;
        while i < params.len()
            invariant
                0 <= i <= params@.len(),
                values@.len() == i,
                forall|k: int|
                    0 <= k < i ==> (#[trigger] values@[k]).0@ == params@[k].0@ && self.resolve(
                        params@[k].1,
                    ) == Some(values@[k].1),
            decreases params@.len() - i,
        {
            let value = match &params[i].1 {
                SceneObjectOrIdentifier::SceneObject(value) => *value,
                SceneObjectOrIdentifier::Identifier(id) => {
                    match find(&self.variables, id) {
                        Some(value) => value,
                        None => {
                            let unknown = id.clone();
                            assert(self.resolve(params@[i as int].1) is None);
                            assert forall|k: int| 0 <= k < i implies self.resolve(
                                (#[trigger] params@[k]).1,
                            ) is Some by {
                                assert(self.resolve(params@[k].1) == Some(values@[k].1));
                            }
                            return Err(SceneError::UnknownIdentifier(unknown));
                        },
                    }
                },
            };
            values.push((params[i].0.clone(), value));
            i = i + 1;
        }
        assert forall|k: int| 0 <= k < params@.len() implies self.resolve(
            (#[trigger] params@[k]).1,
        ) is Some by {
            assert(self.resolve(params@[k].1) == Some(values@[k].1));
        }
        Ok(values)
    }
}

/// After the value of an entry is replaced, its name leads to the new value
/// if no earlier entry has that name, and every other name leads where it
/// led.
pub proof fn lemma_lookup_update(
    before: Seq<(String, SceneObject)>,
    i: int,
    value: SceneObject,
    after: Seq<(String, SceneObject)>,
)
    requires
        0 <= i < before.len(),
        after.len() == before.len(),
        after[i].0@ == before[i].0@,
        after[i].1 == value,
        forall|k: int| 0 <= k < before.len() && k != i ==> after[k] == before[k],
        forall|k: int| 0 <= k < i ==> (#[trigger] before[k]).0@ != before[i].0@,
    ensures
        lookup(after, before[i].0@) == Some(value),
        forall|other: Seq<char>|
            other != before[i].0@ ==> lookup(after, other) == lookup(before, other),
    decreases before.len(),
{
    let name = before[i].0@;
    if i == 0 {
        assert(after.skip(1) =~= before.skip(1));
        assert(lookup(after, name) == Some(value));
        assert forall|other: Seq<char>| other != name implies lookup(after, other) == lookup(
            before,
            other,
        ) by {
            assert(lookup(after, other) == lookup(after.skip(1), other));
            assert(lookup(before, other) == lookup(before.skip(1), other));
        }
    } else {
        assert(before[0].0@ != name);
        assert(after[0] == before[0]);
        let b = before.skip(1);
        let a = after.skip(1);
        assert(a[i - 1] == after[i]);
        assert(b[i - 1] == before[i]);
        assert forall|k: int| 0 <= k < b.len() && k != i - 1 implies a[k] == b[k] by {
            assert(a[k] == after[k + 1]);
            assert(b[k] == before[k + 1]);
        }
        assert forall|k: int| 0 <= k < i - 1 implies (#[trigger] b[k]).0@ != b[i - 1].0@ by {
            assert(b[k] == before[k + 1]);
        }
        lemma_lookup_update(b, i - 1, value, a);
        assert(lookup(after, name) == lookup(a, name));
        assert forall|other: Seq<char>| other != name implies lookup(after, other) == lookup(
            before,
            other,
        ) by {
            if before[0].0@ == other {
                assert(lookup(after, other) == Some(after[0].1));
                assert(lookup(before, other) == Some(before[0].1));
            } else {
                assert(lookup(after, other) == lookup(a, other));
                assert(lookup(before, other) == lookup(b, other));
            }
        }
    }
}

/// After an entry with a new name is appended, its name leads to its value,
/// and every other name leads where it led.
pub proof fn lemma_lookup_push(
    before: Seq<(String, SceneObject)>,
    after: Seq<(String, SceneObject)>,
)
    requires
        after.len() == before.len() + 1,
        forall|k: int| 0 <= k < before.len() ==> after[k] == before[k],
        forall|k: int|
            0 <= k < before.len() ==> (#[trigger] before[k]).0@ != after[before.len() as int].0@,
    ensures
        lookup(after, after[before.len() as int].0@) == Some(after[before.len() as int].1),
        forall|other: Seq<char>|
            other != after[before.len() as int].0@ ==> lookup(after, other) == lookup(
                before,
                other,
            ),
    decreases before.len(),
{
    let last = after[before.len() as int];
    let name = last.0@;
    if before.len() == 0 {
        assert(after.skip(1).len() == 0);
        assert(lookup(after, name) == Some(last.1));
        assert forall|other: Seq<char>| other != name implies lookup(after, other) == lookup(
            before,
            other,
        ) by {
            assert(lookup(after, other) == lookup(after.skip(1), other));
        }
    } else {
        assert(after[0] == before[0]);
        assert(before[0].0@ != name);
        let b = before.skip(1);
        let a = after.skip(1);
        assert forall|k: int| 0 <= k < b.len() implies a[k] == b[k] by {
            assert(a[k] == after[k + 1]);
            assert(b[k] == before[k + 1]);
        }
        assert(a[b.len() as int] == last);
        assert forall|k: int| 0 <= k < b.len() implies (#[trigger] b[k]).0@ != a[b.len() as int].0@ by {
            assert(b[k] == before[k + 1]);
        }
        lemma_lookup_push(b, a);
        assert(lookup(after, name) == lookup(a, name));
        assert forall|other: Seq<char>| other != name implies lookup(after, other) == lookup(
            before,
            other,
        ) by {
            if before[0].0@ == other {
                assert(lookup(after, other) == Some(after[0].1));
                assert(lookup(before, other) == Some(before[0].1));
            } else {
                assert(lookup(after, other) == lookup(a, other));
                assert(lookup(before, other) == lookup(b, other));
            }
        }
    }
}

/// A parameter of the given name.
fn parameter(name: &str, kind: SceneObjectKind, required: bool) -> (r: Parameter)
    ensures
        r.name@ == name@,
        r.kind == kind,
        r.required == required,
{
    Parameter { name: name.to_owned(), kind, required }
}

/// A prototype names these parameters, in this order.
pub open spec fn is_prototype(
    prototype: Seq<Parameter>,
    names: Seq<Seq<char>>,
    kinds: Seq<SceneObjectKind>,
    required: Seq<bool>,
) -> bool {
    &&& prototype.len() == names.len()
    &&& forall|i: int|
        0 <= i < prototype.len() ==> (#[trigger] prototype[i]).name@ == names[i] && prototype[i].kind
            == kinds[i] && prototype[i].required == required[i]
}

/// What the creator of a surface takes: a `sphere` its `center`, `radius`
/// and `material`, a `plane` its `point`, `normal` and `material`, each of
/// them required.  No other surface can be declared.
pub fn declarable(creator: &String) -> (r: Option<Vec<Parameter>>)
    ensures
        creator@ == "sphere"@ ==> r is Some && is_prototype(
            r->0@,
            seq!["center"@, "radius"@, "material"@],
            seq![SceneObjectKind::Vec3, SceneObjectKind::Float, SceneObjectKind::Material],
            seq![true, true, true],
        ),
        creator@ != "sphere"@ && creator@ == "plane"@ ==> r is Some && is_prototype(
            r->0@,
            seq!["point"@, "normal"@, "material"@],
            seq![SceneObjectKind::Vec3, SceneObjectKind::Vec3, SceneObjectKind::Material],
            seq![true, true, true],
        ),
        creator@ != "sphere"@ && creator@ != "plane"@ ==> r is None,
{
    if *creator == "sphere".to_owned() {
        let mut prototype: Vec<Parameter> = Vec::new();
        prototype.push(parameter("center", SceneObjectKind::Vec3, true));
        prototype.push(parameter("radius", SceneObjectKind::Float, true));
        prototype.push(parameter("material", SceneObjectKind::Material, true));
        Some(prototype)
    } else if *creator == "plane".to_owned() {
        let mut prototype: Vec<Parameter> = Vec::new();
        prototype.push(parameter("point", SceneObjectKind::Vec3, true));
        prototype.push(parameter("normal", SceneObjectKind::Vec3, true));
        prototype.push(parameter("material", SceneObjectKind::Material, true));
        Some(prototype)
    } else {
        None
    }
}

/// What the creator of a material takes: `lambertian` a required `albedo`,
/// `light` an optional `emittance`, `metal` a required `albedo` and an
/// optional `fuzz`.  No other material can be built.
pub fn buildable(creator: &String) -> (r: Option<Vec<Parameter>>)
    ensures
        creator@ == "lambertian"@ ==> r is Some && is_prototype(
            r->0@,
            seq!["albedo"@],
            seq![SceneObjectKind::Vec3],
            seq![true],
        ),
        creator@ != "lambertian"@ && creator@ == "light"@ ==> r is Some && is_prototype(
            r->0@,
            seq!["emittance"@],
            seq![SceneObjectKind::Vec3],
            seq![false],
        ),
        creator@ != "lambertian"@ && creator@ != "light"@ && creator@ == "metal"@ ==> r is Some
            && is_prototype(
            r->0@,
            seq!["albedo"@, "fuzz"@],
            seq![SceneObjectKind::Vec3, SceneObjectKind::Float],
            seq![true, false],
        ),
        creator@ != "lambertian"@ && creator@ != "light"@ && creator@ != "metal"@ ==> r is None,
{
    if *creator == "lambertian".to_owned() {
        let mut prototype: Vec<Parameter> = Vec::new();
        prototype.push(parameter("albedo", SceneObjectKind::Vec3, true));
        Some(prototype)
    } else if *creator == "light".to_owned() {
        let mut prototype: Vec<Parameter> = Vec::new();
        prototype.push(parameter("emittance", SceneObjectKind::Vec3, false));
        Some(prototype)
    } else if *creator == "metal".to_owned() {
        let mut prototype: Vec<Parameter> = Vec::new();
        prototype.push(parameter("albedo", SceneObjectKind::Vec3, true));
        prototype.push(parameter("fuzz", SceneObjectKind::Float, false));
        Some(prototype)
    } else {
        None
    }
}

/// What a preset takes: the size of the picture, the camera, the number of
/// samples and the depth, all required, and an optional `background`.
pub fn preset_fields() -> (r: Vec<Parameter>)
    ensures
        is_prototype(
            r@,
            seq![
                "width"@,
                "height"@,
                "look_from"@,
                "look_at"@,
                "up"@,
                "vfov"@,
                "sample_count"@,
                "max_depth"@,
                "background"@,
            ],
            seq![
                SceneObjectKind::Float,
                SceneObjectKind::Float,
                SceneObjectKind::Vec3,
                SceneObjectKind::Vec3,
                SceneObjectKind::Vec3,
                SceneObjectKind::Float,
                SceneObjectKind::Float,
                SceneObjectKind::Float,
                SceneObjectKind::Vec3,
            ],
            seq![true, true, true, true, true, true, true, true, false],
        ),
{
    let mut prototype: Vec<Parameter> = Vec::new();
    prototype.push(parameter("width", SceneObjectKind::Float, true));
    prototype.push(parameter("height", SceneObjectKind::Float, true));
    prototype.push(parameter("look_from", SceneObjectKind::Vec3, true));
    prototype.push(parameter("look_at", SceneObjectKind::Vec3, true));
    prototype.push(parameter("up", SceneObjectKind::Vec3, true));
    prototype.push(parameter("vfov", SceneObjectKind::Float, true));
    prototype.push(parameter("sample_count", SceneObjectKind::Float, true));
    prototype.push(parameter("max_depth", SceneObjectKind::Float, true));
    prototype.push(parameter("background", SceneObjectKind::Vec3, false));
    prototype
}

} // verus!
