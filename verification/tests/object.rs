use zcore::object::DummyObject;
use zcore::object::Handle;
use zcore::object::Kernel;
use zcore::object::ObjectType;
use zcore::rights::Rights;
use zcore::error::ZxError;

#[test]
fn dummy_object() {
    let mut k = Kernel::new();
    let o1 = DummyObject::new(&mut k);
    let o2 = DummyObject::new(&mut k);
    assert_ne!(o1.id(), o2.id());
    assert_eq!(o1.kind_name(), "DummyObject");
    assert_eq!(o1.name(&k), "");
    o1.set_name(&mut k, "object1");
    assert_eq!(o1.name(&k), "object1");
}

#[test]
fn mod_dummy_object() {
    let mut k = Kernel::new();
    let o1 = DummyObject::new(&mut k);
    let o2 = DummyObject::new(&mut k);
    assert_eq!(o1.id(), 1024);
    assert_eq!(o2.id(), 1025);
    assert_eq!(o1.kind_name(), "DummyObject");
    assert_eq!(o1.name(&k), "");
    o1.set_name(&mut k, "object1");
    assert_eq!(o1.name(&k), "object1");
}

#[test]
fn downcast() {
    let mut k = Kernel::new();
    let dummy = DummyObject::new(&mut k);
    assert_eq!(k.object_type(dummy.id()), Some(ObjectType::Dummy));
    assert_ne!(k.object_type(dummy.id()), Some(ObjectType::Process));
}

#[test]
fn new_obj_handle() {
    let mut k = Kernel::new();
    let obj = DummyObject::new(&mut k);
    let _handle1 = Handle::new(obj.id(), Rights::basic());
}

#[test]
fn impl_kobject() {
    let mut k = Kernel::new();
    let dummy = DummyObject::new(&mut k);
    assert_eq!(dummy.kind_name(), "DummyObject");
    assert_eq!(dummy.name(&k), "");
    dummy.set_name(&mut k, "dummy");
    assert_eq!(dummy.name(&k), "dummy");
    let repr = format!("{}({}, {:?})", dummy.kind_name(), dummy.id(), dummy.name(&k));
    assert_eq!(repr, format!("DummyObject({}, \"dummy\")", dummy.id()));
    assert_eq!(dummy.peer().err(), Some(ZxError::NOT_SUPPORTED));
    assert_eq!(dummy.related_koid(), 0);
}
