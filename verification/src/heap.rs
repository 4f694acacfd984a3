use vstd::prelude::*;
use crate::value::{Object, ObjectType, ObjectView};

verus! {

/// All objects the program has made, in the order they were made; an object is named
/// by its index. Objects are never freed while the heap lives.
pub struct Heap {
    objects: Vec<Object>,
}

impl View for Heap {
    type V = Seq<ObjectView>;

    closed spec fn view(&self) -> Seq<ObjectView> {
        self.objects@.map_values(|o: Object| o@)
    }
}

impl Heap {
    pub fn new() -> (h: Heap)
        ensures
            h@ == Seq::<ObjectView>::empty(),
    {
        let h = Heap { objects: Vec::new() };
        proof {
            assert(h@ =~= Seq::<ObjectView>::empty());
        }
        h
    }

    /// Adds an unmarked object and gives its index.
    pub fn allocate(&mut self, obj_type: ObjectType) -> (r: usize)
        ensures
            r == old(self)@.len(),
            final(self)@ == old(self)@.push(ObjectView { data: obj_type@, is_marked: false }),
    {
        let r = self.objects.len();
        self.objects.push(Object { obj_type, is_marked: false });
        proof {
            assert(self@ =~= old(self)@.push(ObjectView { data: obj_type@, is_marked: false }));
        }
        r
    }

    /// The number of objects.
    pub fn len(&self) -> (n: usize)
        ensures
            n == self@.len(),
    {
        self.objects.len()
    }

    /// The object at `r`.
    pub fn get(&self, r: usize) -> (o: &Object)
        requires
            r < self@.len(),
        ensures
            o@ == self@[r as int],
    {
        &self.objects[r]
    }

    /// The object at `r`, for changing it.
    pub fn get_mut(&mut self, r: usize) -> (o: &mut Object)
        requires
            r < old(self)@.len(),
        ensures
            (*o)@ == old(self)@[r as int],
            final(self)@ == old(self)@.update(r as int, (*final(o))@),
    {
        &mut self.objects[r]
    }

    /// Replaces the element `i` of the array object at `r`.
    pub fn set_array_element(&mut self, r: usize, i: usize, v: crate::value::Value)
        requires
            r < old(self)@.len(),
            old(self)@[r as int].data is Array,
            i < old(self)@[r as int].data->Array_0.len(),
        ensures
            final(self)@ == old(self)@.update(
                r as int,
                ObjectView {
                    data: crate::value::ObjData::Array(old(self)@[r as int].data->Array_0.update(i as int, v)),
                    ..old(self)@[r as int]
                },
            ),
    {
        let ghost before = self@;
        match &mut self.objects[r].obj_type {
            ObjectType::Array(values) => {
                values.set(i, v);
            },
            _ => {},
        }
        proof {
            assert(self@ =~= before.update(
                r as int,
                ObjectView {
                    data: crate::value::ObjData::Array(before[r as int].data->Array_0.update(i as int, v)),
                    ..before[r as int]
                },
            ));
        }
    }
}

} // verus!
