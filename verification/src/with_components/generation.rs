//! The fragments of code that install components in a contract.

use vstd::prelude::*;
use crate::constants::{
    EVENT_ENUM_NAME,
    FLAT_ATTRIBUTE,
    STORAGE_STRUCT_NAME,
    SUBSTORAGE_ATTRIBUTE,
    TAB,
};
use crate::text::{join, join_strings, push_line, repeat};
use crate::utils::tabs;
use crate::with_components::components::{short_name_of, ComponentInfo, ComponentInfoView};

verus! {

/// The two lines that enter one component in the storage struct.
pub open spec fn storage_lines(c: ComponentInfoView) -> Seq<Seq<char>> {
    seq![
        repeat(TAB@, 2) + "#["@ + SUBSTORAGE_ATTRIBUTE@ + "]"@,
        repeat(TAB@, 2) + c.storage + ": "@ + c.name + "::Storage,"@,
    ]
}

/// The two lines that enter one component in the event enum.
pub open spec fn event_lines(c: ComponentInfoView) -> Seq<Seq<char>> {
    seq![
        repeat(TAB@, 2) + "#["@ + FLAT_ATTRIBUTE@ + "]"@,
        repeat(TAB@, 2) + c.event + ": "@ + c.name + "::Event,"@,
    ]
}

/// The line that imports one component.
pub open spec fn use_clause_line(c: ComponentInfoView) -> Seq<char> {
    repeat(TAB@, 1) + "use "@ + c.path + ";"@
}

/// The line that registers one component with its storage and event names.
pub open spec fn macro_line(c: ComponentInfoView) -> Seq<char> {
    repeat(TAB@, 1) + "component!(path: "@ + c.name + ", storage: "@ + c.storage + ", event: "@
        + c.event + ");"@
}

/// The line that makes one internal implementation of a component available.
pub open spec fn internal_impl_line(c: ComponentInfoView, implementation: Seq<char>) -> Seq<
    char,
> {
    repeat(TAB@, 1) + "impl "@ + short_name_of(c.name) + implementation + " = "@ + c.name + "::"@
        + implementation + "<ContractState>;"@
}

/// The lines of the storage entries of the given components, in order.
pub open spec fn storage_entries(cs: Seq<ComponentInfoView>) -> Seq<Seq<char>>
    decreases cs.len(),
{
    if cs.len() == 0 {
        Seq::empty()
    } else {
        storage_entries(cs.drop_last()) + storage_lines(cs.last())
    }
}

/// The lines of the event variants of the given components, in order.
pub open spec fn event_entries(cs: Seq<ComponentInfoView>) -> Seq<Seq<char>>
    decreases cs.len(),
{
    if cs.len() == 0 {
        Seq::empty()
    } else {
        event_entries(cs.drop_last()) + event_lines(cs.last())
    }
}

/// The import lines of the given components, in order.
pub open spec fn use_clause_entries(cs: Seq<ComponentInfoView>) -> Seq<Seq<char>>
    decreases cs.len(),
{
    if cs.len() == 0 {
        Seq::empty()
    } else {
        use_clause_entries(cs.drop_last()).push(use_clause_line(cs.last()))
    }
}

/// The registration lines of the given components, in order.
pub open spec fn macro_entries(cs: Seq<ComponentInfoView>) -> Seq<Seq<char>>
    decreases cs.len(),
{
    if cs.len() == 0 {
        Seq::empty()
    } else {
        macro_entries(cs.drop_last()).push(macro_line(cs.last()))
    }
}

/// The lines for the first `n` internal implementations of one component.
pub open spec fn internal_impl_lines(c: ComponentInfoView, n: nat) -> Seq<Seq<char>>
    decreases n,
{
    if n == 0 {
        Seq::empty()
    } else {
        internal_impl_lines(c, (n - 1) as nat).push(
            internal_impl_line(c, c.internal_impls[n - 1]),
        )
    }
}

/// The lines for the internal implementations of the given components, in
/// order.
pub open spec fn internal_impls_entries(cs: Seq<ComponentInfoView>) -> Seq<Seq<char>>
    decreases cs.len(),
{
    if cs.len() == 0 {
        Seq::empty()
    } else {
        internal_impls_entries(cs.drop_last()) + internal_impl_lines(
            cs.last(),
            cs.last().internal_impls.len(),
        )
    }
}

/// What is put at the top of the storage struct.
pub open spec fn storage_struct_text(cs: Seq<ComponentInfoView>) -> Seq<char> {
    join(storage_entries(cs), "\n"@) + "\n"@
}

/// What is put at the top of the event enum.
pub open spec fn event_enum_text(cs: Seq<ComponentInfoView>) -> Seq<char> {
    join(event_entries(cs), "\n"@) + "\n"@
}

/// The lines of a storage struct made for the given components.
pub open spec fn new_storage_struct_lines(cs: Seq<ComponentInfoView>) -> Seq<Seq<char>> {
    seq![
        "\n"@ + repeat(TAB@, 1) + "#[storage]"@,
        repeat(TAB@, 1) + "struct "@ + STORAGE_STRUCT_NAME@ + " {"@,
    ] + storage_entries(cs) + seq![repeat(TAB@, 1) + "}"@]
}

/// A storage struct made for the given components.
pub open spec fn new_storage_struct_text(cs: Seq<ComponentInfoView>) -> Seq<char> {
    join(new_storage_struct_lines(cs), "\n"@)
}

/// The lines of an event enum made for the given components.
pub open spec fn new_event_enum_lines(cs: Seq<ComponentInfoView>) -> Seq<Seq<char>> {
    seq![
        "\n"@ + repeat(TAB@, 1) + "#[event]"@,
        repeat(TAB@, 1) + "#[derive(Drop, starknet::Event)]"@,
        repeat(TAB@, 1) + "enum "@ + EVENT_ENUM_NAME@ + " {"@,
    ] + event_entries(cs) + seq![repeat(TAB@, 1) + "}"@]
}

/// An event enum made for the given components.
pub open spec fn new_event_enum_text(cs: Seq<ComponentInfoView>) -> Seq<char> {
    join(new_event_enum_lines(cs), "\n"@)
}

/// What is put at the end of the module: the imports, the registrations and
/// the internal implementations of the given components.
pub open spec fn module_text(cs: Seq<ComponentInfoView>) -> Seq<char> {
    "\n"@ + join(use_clause_entries(cs), "\n"@) + "\n\n"@ + join(macro_entries(cs), "\n"@)
        + "\n\n"@ + join(internal_impls_entries(cs), "\n"@) + "\n"@
}

/// The components from which the fragments are made.
pub struct ComponentsGenerationData<'a>(pub &'a Vec<ComponentInfo>);

impl<'a> ComponentsGenerationData<'a> {
    /// The components, as the contracts speak of them.
    pub open spec fn components(&self) -> Seq<ComponentInfoView> {
        self.0.deep_view()
    }

    /// What is put at the end of the module.
    pub fn generate_for_module(&self) -> (r: String)
        ensures
            r@ == module_text(self.components()),
    {
        let mut out = String::from_str("\n");
        out.append(self.component_use_clause_entries().as_str());
        out.append("\n\n");
        out.append(self.component_macro_entries().as_str());
        out.append("\n\n");
        out.append(self.component_internal_impls_entries().as_str());
        out.append("\n");
        out
    }

    /// The lines of the storage entries of the components.
    fn storage_entry_lines(&self, entries: &mut Vec<String>)
        ensures
            final(entries).deep_view() == old(entries).deep_view() + storage_entries(
                self.components(),
            ),
    {
        let mut i: usize = 0;
        while i < self.0.len()
            invariant
                i <= self.0.len(),
                entries.deep_view() == old(entries).deep_view() + storage_entries(
                    self.components().take(i as int),
                ),
            decreases self.0.len() - i,
        {
            let component = &self.0[i];
            proof {
                let next = self.components().take(i + 1);
                assert(next.drop_last() == self.components().take(i as int));
                assert(next.last() == component.deep_view());
            }
            let mut attribute = tabs(2);
            attribute.append("#[");
            attribute.append(SUBSTORAGE_ATTRIBUTE);
            attribute.append("]");
            push_line(entries, attribute);
            let mut entry = tabs(2);
            entry.append(component.storage.as_str());
            entry.append(": ");
            entry.append(component.name.as_str());
            entry.append("::Storage,");
            push_line(entries, entry);
            i += 1;
        }
        assert(self.components().take(self.0.len() as int) == self.components());
    }

    /// What is put at the top of the storage struct.
    pub fn generate_for_storage_struct(&self) -> (r: String)
        ensures
            r@ == storage_struct_text(self.components()),
    {
        let mut entries: Vec<String> = Vec::new();
        assert(entries.deep_view() =~= Seq::<Seq<char>>::empty());
        self.storage_entry_lines(&mut entries);
        let mut out = join_strings(&entries, "\n");
        out.append("\n");
        out
    }

    /// A storage struct with one entry for each component.
    pub fn generate_storage_struct(&self) -> (r: String)
        ensures
            r@ == new_storage_struct_text(self.components()),
    {
        let mut entries: Vec<String> = Vec::new();
        assert(entries.deep_view() =~= Seq::<Seq<char>>::empty());
        let mut first = String::from_str("\n");
        first.append(tabs(1).as_str());
        first.append("#[storage]");
        push_line(&mut entries, first);
        let mut second = tabs(1);
        second.append("struct ");
        second.append(STORAGE_STRUCT_NAME);
        second.append(" {");
        push_line(&mut entries, second);
        self.storage_entry_lines(&mut entries);
        let mut last = tabs(1);
        last.append("}");
        push_line(&mut entries, last);
        assert(entries.deep_view() =~= new_storage_struct_lines(self.components()));
        join_strings(&entries, "\n")
    }

    /// The lines of the event variants of the components.
    fn event_variant_lines(&self, entries: &mut Vec<String>)
        ensures
            final(entries).deep_view() == old(entries).deep_view() + event_entries(
                self.components(),
            ),
    {
        let mut i: usize = 0;
        while i < self.0.len()
            invariant
                i <= self.0.len(),
                entries.deep_view() == old(entries).deep_view() + event_entries(
                    self.components().take(i as int),
                ),
            decreases self.0.len() - i,
        {
            let component = &self.0[i];
            proof {
                let next = self.components().take(i + 1);
                assert(next.drop_last() == self.components().take(i as int));
                assert(next.last() == component.deep_view());
            }
            let mut attribute = tabs(2);
            attribute.append("#[");
            attribute.append(FLAT_ATTRIBUTE);
            attribute.append("]");
            push_line(entries, attribute);
            let mut entry = tabs(2);
            entry.append(component.event.as_str());
            entry.append(": ");
            entry.append(component.name.as_str());
            entry.append("::Event,");
            push_line(entries, entry);
            i += 1;
        }
        assert(self.components().take(self.0.len() as int) == self.components());
    }

    /// What is put at the top of the event enum.
    pub fn generate_for_event_enum(&self) -> (r: String)
        ensures
            r@ == event_enum_text(self.components()),
    {
        let mut entries: Vec<String> = Vec::new();
        assert(entries.deep_view() =~= Seq::<Seq<char>>::empty());
        self.event_variant_lines(&mut entries);
        let mut out = join_strings(&entries, "\n");
        out.append("\n");
        out
    }

    /// An event enum with one variant for each component.
    pub fn generate_event_enum(&self) -> (r: String)
        ensures
            r@ == new_event_enum_text(self.components()),
    {
        let mut entries: Vec<String> = Vec::new();
        assert(entries.deep_view() =~= Seq::<Seq<char>>::empty());
        let mut first = String::from_str("\n");
        first.append(tabs(1).as_str());
        first.append("#[event]");
        push_line(&mut entries, first);
        let mut second = tabs(1);
        second.append("#[derive(Drop, starknet::Event)]");
        push_line(&mut entries, second);
        let mut third = tabs(1);
        third.append("enum ");
        third.append(EVENT_ENUM_NAME);
        third.append(" {");
        push_line(&mut entries, third);
        self.event_variant_lines(&mut entries);
        let mut last = tabs(1);
        last.append("}");
        push_line(&mut entries, last);
        assert(entries.deep_view() =~= new_event_enum_lines(self.components()));
        join_strings(&entries, "\n")
    }

    /// The import lines of the components.
    pub fn component_use_clause_entries(&self) -> (r: String)
        ensures
            r@ == join(use_clause_entries(self.components()), "\n"@),
    {
        let mut entries: Vec<String> = Vec::new();
        assert(entries.deep_view() =~= Seq::<Seq<char>>::empty());
        let mut i: usize = 0;
        while i < self.0.len()
            invariant
                i <= self.0.len(),
                entries.deep_view() == use_clause_entries(self.components().take(i as int)),
            decreases self.0.len() - i,
        {
            let component = &self.0[i];
            proof {
                let next = self.components().take(i + 1);
                assert(next.drop_last() == self.components().take(i as int));
                assert(next.last() == component.deep_view());
            }
            let mut entry = tabs(1);
            entry.append("use ");
            entry.append(component.path.as_str());
            entry.append(";");
            push_line(&mut entries, entry);
            i += 1;
        }
        assert(self.components().take(self.0.len() as int) == self.components());
        join_strings(&entries, "\n")
    }

    /// The registration lines of the components.
    pub fn component_macro_entries(&self) -> (r: String)
        ensures
            r@ == join(macro_entries(self.components()), "\n"@),
    {
        let mut entries: Vec<String> = Vec::new();
        assert(entries.deep_view() =~= Seq::<Seq<char>>::empty());
        let mut i: usize = 0;
        while i < self.0.len()
            invariant
                i <= self.0.len(),
                entries.deep_view() == macro_entries(self.components().take(i as int)),
            decreases self.0.len() - i,
        {
            let component = &self.0[i];
            proof {
                let next = self.components().take(i + 1);
                assert(next.drop_last() == self.components().take(i as int));
                assert(next.last() == component.deep_view());
            }
            let mut entry = tabs(1);
            entry.append("component!(path: ");
            entry.append(component.name.as_str());
            entry.append(", storage: ");
            entry.append(component.storage.as_str());
            entry.append(", event: ");
            entry.append(component.event.as_str());
            entry.append(");");
            push_line(&mut entries, entry);
            i += 1;
        }
        assert(self.components().take(self.0.len() as int) == self.components());
        join_strings(&entries, "\n")
    }

    /// The lines that make the internal implementations available.
    pub fn component_internal_impls_entries(&self) -> (r: String)
        ensures
            r@ == join(internal_impls_entries(self.components()), "\n"@),
    {
        let mut entries: Vec<String> = Vec::new();
        assert(entries.deep_view() =~= Seq::<Seq<char>>::empty());
        let mut i: usize = 0;
        while i < self.0.len()
            invariant
                i <= self.0.len(),
                entries.deep_view() == internal_impls_entries(self.components().take(i as int)),
            decreases self.0.len() - i,
        {
            let component = &self.0[i];
            let ghost c = component.deep_view();
            let ghost before = entries.deep_view();
            proof {
                let next = self.components().take(i + 1);
                assert(next.drop_last() == self.components().take(i as int));
                assert(next.last() == c);
            }
            let short_name = component.short_name();
            let mut j: usize = 0;
            while j < component.internal_impls.len()
                invariant
                    j <= component.internal_impls.len(),
                    c == component.deep_view(),
                    short_name@ == short_name_of(c.name),
                    entries.deep_view() == before + internal_impl_lines(c, j as nat),
                decreases component.internal_impls.len() - j,
            {
                let implementation = &component.internal_impls[j];
                assert(c.internal_impls[j as int] == implementation@);
                let mut entry = tabs(1);
                entry.append("impl ");
                entry.append(short_name.as_str());
                entry.append(implementation.as_str());
                entry.append(" = ");
                entry.append(component.name.as_str());
                entry.append("::");
                entry.append(implementation.as_str());
                entry.append("<ContractState>;");
                push_line(&mut entries, entry);
                j += 1;
            }
            assert(c.internal_impls.len() == component.internal_impls.len());
            i += 1;
        }
        assert(self.components().take(self.0.len() as int) == self.components());
        join_strings(&entries, "\n")
    }
}

} // verus!
