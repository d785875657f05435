//! The tools that a request offered, found again by the name that went over the wire.
use vstd::prelude::*;

use crate::name_map::NameMap;

verus! {

/// What kind of tool a wire name stands for.
#[derive(Debug, PartialEq, Eq)]
pub enum ToolKind {
    /// A function, with the namespace under which it was registered.
    Function { namespace: Option<String> },
    /// A custom tool, whose only argument is an input text.
    Custom,
}

/// A tool kind as a mathematical value.
pub enum KindView {
    Function { namespace: Option<Seq<char>> },
    Custom,
}

impl DeepView for ToolKind {
    type V = KindView;

    open spec fn deep_view(&self) -> KindView {
        match self {
            ToolKind::Function { namespace } => KindView::Function {
                namespace: namespace.deep_view(),
            },
            ToolKind::Custom => KindView::Custom,
        }
    }
}

/// A registered tool: its kind, and the namespace and name that its wire name encodes.
#[derive(Debug, PartialEq, Eq)]
pub struct RegisteredTool {
    pub kind: ToolKind,
    pub decoded_namespace: Option<String>,
    pub decoded_name: String,
}

/// A registered tool as a mathematical value.
pub struct ToolView {
    pub kind: KindView,
    pub decoded_namespace: Option<Seq<char>>,
    pub decoded_name: Seq<char>,
}

impl DeepView for RegisteredTool {
    type V = ToolView;

    open spec fn deep_view(&self) -> ToolView {
        ToolView {
            kind: self.kind.deep_view(),
            decoded_namespace: self.decoded_namespace.deep_view(),
            decoded_name: self.decoded_name@,
        }
    }
}

/// From wire name to registered tool.
#[derive(Debug)]
pub struct ToolReverseMap {
    tools: NameMap<RegisteredTool>,
}

impl View for ToolReverseMap {
    type V = Map<Seq<char>, ToolView>;

    closed spec fn view(&self) -> Map<Seq<char>, ToolView> {
        self.tools@.map_values(|tool: RegisteredTool| tool.deep_view())
    }
}

impl ToolReverseMap {
    /// A map without tools.
    pub fn new() -> (map: Self)
        ensures
            map@ == Map::<Seq<char>, ToolView>::empty(),
    {
        let map = ToolReverseMap { tools: NameMap::new() };
        proof {
            assert(map@ =~= Map::<Seq<char>, ToolView>::empty());
        }
        map
    }

    /// Registers `tool` under `wire_name`, in place of any tool of that name.
    pub fn insert(&mut self, wire_name: String, tool: RegisteredTool)
        ensures
            final(self)@ == old(self)@.insert(wire_name@, tool.deep_view()),
    {
        let ghost before = self@;
        self.tools.insert(wire_name, tool);
        proof {
            assert(self@ =~= before.insert(wire_name@, tool.deep_view()));
        }
    }

    /// The tool that is registered under `wire_name`.
    pub fn get(&self, wire_name: &str) -> (tool: Option<&RegisteredTool>)
        ensures
            match tool {
                Some(tool) => self@.contains_key(wire_name@) && self@[wire_name@]
                    == tool.deep_view(),
                None => !self@.contains_key(wire_name@),
            },
    {
        self.tools.get(wire_name)
    }
}

/// A registered tool is shown as it stands.
pub proof fn law_tool_is_shown(tool: RegisteredTool)
    ensures
        tool.deep_view().decoded_name == tool.decoded_name@,
        crate::chunk::shows_text(tool.decoded_namespace, tool.deep_view().decoded_namespace),
        match tool.kind {
            ToolKind::Function { namespace } => tool.deep_view().kind matches KindView::Function {
                namespace: shown,
            } && crate::chunk::shows_text(namespace, shown),
            ToolKind::Custom => tool.deep_view().kind is Custom,
        },
{
}

/// A tool that was registered is found under its wire name, with all that it was registered with;
/// what is found under any other name stays.
pub proof fn law_registered_tool_is_found(
    wire_name: String,
    tool: RegisteredTool,
    name: &str,
    before: Option<&RegisteredTool>,
    after: Option<&RegisteredTool>,
)
    ensures
        forall|map: &mut ToolReverseMap|
            (#[trigger] call_ensures(ToolReverseMap::insert, (map, wire_name, tool), ())
                && call_ensures(ToolReverseMap::get, (&*map, name), before) && call_ensures(
                ToolReverseMap::get,
                (&*final(map), name),
                after,
            )) ==> if name@ == wire_name@ {
                after matches Some(found) && found.deep_view() == tool.deep_view()
            } else {
                match before {
                    Some(earlier) => after matches Some(found) && found.deep_view()
                        == earlier.deep_view(),
                    None => after is None,
                }
            },
{
    assert forall|map: &mut ToolReverseMap|
        (#[trigger] call_ensures(ToolReverseMap::insert, (map, wire_name, tool), ())
            && call_ensures(ToolReverseMap::get, (&*map, name), before) && call_ensures(
            ToolReverseMap::get,
            (&*final(map), name),
            after,
        )) implies if name@ == wire_name@ {
        after matches Some(found) && found.deep_view() == tool.deep_view()
    } else {
        match before {
            Some(earlier) => after matches Some(found) && found.deep_view() == earlier.deep_view(),
            None => after is None,
        }
    } by {
        assert(final(map)@ == map@.insert(wire_name@, tool.deep_view()));
    }
}

} // verus!
