use vstd::prelude::*;

verus! {

/// The identity of one watched object, as mathematical strings.
pub type ObjectKey = (Seq<char>, Seq<char>, Seq<char>);

/// Identifies a watched resource by namespace, name and kind.
#[derive(Debug, Clone)]
pub struct ObjectRef {
    pub namespace: String,
    pub name: String,
    pub kind: String,
}

impl View for ObjectRef {
    type V = ObjectKey;

    open spec fn view(&self) -> ObjectKey {
        (self.namespace@, self.name@, self.kind@)
    }
}

impl ObjectRef {
    pub fn new(namespace: String, name: String, kind: String) -> (r: ObjectRef)
        ensures
            r.namespace@ == namespace@,
            r.name@ == name@,
            r.kind@ == kind@,
    {
        ObjectRef { namespace, name, kind }
    }

    /// Whether two references name the same object.
    pub fn same_object(&self, other: &ObjectRef) -> (r: bool)
        ensures
            r == (self@ == other@),
    {
        self.namespace == other.namespace && self.name == other.name && self.kind == other.kind
    }

    /// A copy naming the same object.
    pub fn duplicate(&self) -> (r: ObjectRef)
        ensures
            r@ == self@,
    {
        ObjectRef {
            namespace: self.namespace.clone(),
            name: self.name.clone(),
            kind: self.kind.clone(),
        }
    }
}

} // verus!
