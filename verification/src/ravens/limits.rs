//! Operational limit sets, each emitted once, and the types they point at.

use vstd::prelude::*;

use crate::json::{get_of, put_of, Entries, Json, JsonMap, JsonV};
use crate::math::{Bits, Calc, Sem, DAY, FIVE_BILLION};
use crate::model::{DistNetwork, DistNetworkV};
use crate::order::{contains, set_put, set_put_of};
use crate::ravens::emit::{
    array2, fdisp, identified, identified_of, object, pointer, pointer_json, shown, Writer, WriterV,
};
use crate::text::{cat2, cat3, cat4, opt_view};

verus! {

impl WriterV {
    /// Records the use of a limit type.
    pub open spec fn use_type(self, ty: Seq<char>) -> WriterV {
        WriterV { used_types: set_put_of(self.used_types, ty), ..self }
    }

    /// One value of a current limit set.
    #[verifier::opaque]
    pub open spec fn current_limit(
        self,
        m: Sem,
        name: Seq<char>,
        suffix: Seq<char>,
        value: Bits,
        norm: Bits,
        ty: Seq<char>,
    ) -> (WriterV, JsonV) {
        let o = identified_of("CurrentLimit"@, name + "_"@ + suffix, None);
        let (w, o) = self.put_num(m, o, "CurrentLimit.value"@, value, "current limit"@);
        let (w, o) = w.put_num(m, o, "CurrentLimit.normalValue"@, norm, "current limit"@);
        let o = put_of(
            o,
            "OperationalLimit.OperationalLimitType"@,
            pointer_json("OperationalLimitType"@, ty),
        );
        (w.use_type(ty), JsonV::Obj(o))
    }

    /// The current limit set of a continuous and an emergency ampacity, and its
    /// name.
    #[verifier::opaque]
    pub open spec fn current_limit_set(
        self,
        m: Sem,
        norm: Bits,
        emerg: Bits,
    ) -> (WriterV, Seq<char>) {
        let name = "OpLimI_"@ + shown(m, norm) + "_"@ + shown(m, emerg);
        if get_of(self.limit_sets, name) is Some {
            (self, name)
        } else {
            let (w, a) = self.current_limit(
                m,
                name,
                "Norm"@,
                norm,
                norm,
                "absoluteValueType_5000000000.0s"@,
            );
            let (w, b) = w.current_limit(
                m,
                name,
                "Emerg"@,
                emerg,
                norm,
                "absoluteValueType_86400.0s"@,
            );
            let set = put_of(
                identified_of("OperationalLimitSet"@, name, None),
                "OperationalLimitSet.OperationalLimitValue"@,
                JsonV::Arr(seq![a, b]),
            );
            (
                WriterV { limit_sets: put_of(w.limit_sets, name, JsonV::Obj(set)), ..w },
                name,
            )
        }
    }

    /// The limit set of the ampacities that are known; one stands in for the
    /// other.
    pub open spec fn ampacity(self, m: Sem, norm: Option<Bits>, emerg: Option<Bits>) -> (
        WriterV,
        Option<Seq<char>>,
    ) {
        let pair = match (norm, emerg) {
            (Some(n), Some(e)) => Some((n, e)),
            (None, Some(e)) => Some((e, e)),
            (Some(n), None) => Some((n, n)),
            (None, None) => None,
        };
        match pair {
            Some((n, e)) => {
                let (w, name) = self.current_limit_set(m, n, e);
                (w, Some(name))
            },
            None => (self, None),
        }
    }

    /// One value of a voltage limit set.
    #[verifier::opaque]
    pub open spec fn voltage_limit(
        self,
        m: Sem,
        name: Seq<char>,
        suffix: Seq<char>,
        value: Bits,
        normal: Option<Bits>,
        ty: Seq<char>,
    ) -> (WriterV, JsonV) {
        let o = identified_of("VoltageLimit"@, name + "_"@ + suffix, None);
        let (w, o) = self.put_num(m, o, "VoltageLimit.value"@, value, "voltage limit"@);
        let (w, o) = w.put_opt(m, o, "VoltageLimit.normalValue"@, normal, "voltage limit"@);
        let o = put_of(
            o,
            "OperationalLimit.OperationalLimitType"@,
            pointer_json("OperationalLimitType"@, ty),
        );
        (w.use_type(ty), JsonV::Obj(o))
    }

    /// The voltage limit set of two bounds, and its name.
    #[verifier::opaque]
    pub open spec fn voltage_limit_set(
        self,
        m: Sem,
        low: Bits,
        high: Bits,
        normal: Option<Bits>,
    ) -> (
        WriterV,
        Seq<char>,
    ) {
        let name = "OpLimV_"@ + shown(m, low) + "-"@ + shown(m, high);
        if get_of(self.limit_sets, name) is Some {
            (self, name)
        } else {
            let (w, a) = self.voltage_limit(
                m,
                name,
                "RangeAlow"@,
                low,
                normal,
                "lowType_5000000000.0s"@,
            );
            let (w, b) = w.voltage_limit(
                m,
                name,
                "RangeAhigh"@,
                high,
                normal,
                "highType_5000000000.0s"@,
            );
            let set = put_of(
                identified_of("OperationalLimitSet"@, name, None),
                "OperationalLimitSet.OperationalLimitValue"@,
                JsonV::Arr(seq![a, b]),
            );
            (
                WriterV { limit_sets: put_of(w.limit_sets, name, JsonV::Obj(set)), ..w },
                name,
            )
        }
    }

    /// The limit set of a bus that is bounded both ways.
    #[verifier::opaque]
    pub open spec fn bus_voltage_limit(self, m: Sem, net: DistNetworkV, bus: Seq<char>) -> (
        WriterV,
        Option<Seq<char>>,
    ) {
        match net.bus(bus) {
            Some(b) => match (b.v_min, b.v_max) {
                (Some(low), Some(high)) => {
                    let (w, name) = self.voltage_limit_set(m, low, high, self.base_of(bus));
                    (w, Some(name))
                },
                _ => (self, None),
            },
            None => (self, None),
        }
    }

    /// The table with a limit type in, where some limit uses it.
    pub open spec fn add_type(
        self,
        m: Sem,
        table: Entries,
        name: Seq<char>,
        direction: Seq<char>,
        duration: Bits,
    ) -> (WriterV, Entries) {
        if self.used_types.contains(name) {
            let o = put_of(
                identified_of("OperationalLimitType"@, name, None),
                "OperationalLimitType.direction"@,
                JsonV::Str("OperationalLimitDirectionKind."@ + direction),
            );
            let (w, o) = self.put_num(
                m,
                o,
                "OperationalLimitType.acceptableDuration"@,
                duration,
                "limit type"@,
            );
            (w, put_of(table, name, JsonV::Obj(o)))
        } else {
            (self, table)
        }
    }

    /// The types that limits use.
    #[verifier::opaque]
    pub open spec fn limit_types(self, m: Sem) -> (WriterV, Entries) {
        let (w, t) = self.add_type(
            m,
            Entries::empty(),
            "lowType_5000000000.0s"@,
            "low"@,
            FIVE_BILLION,
        );
        let (w, t) = w.add_type(m, t, "highType_5000000000.0s"@, "high"@, FIVE_BILLION);
        let (w, t) = w.add_type(
            m,
            t,
            "absoluteValueType_5000000000.0s"@,
            "absoluteValue"@,
            FIVE_BILLION,
        );
        w.add_type(m, t, "absoluteValueType_86400.0s"@, "absoluteValue"@, DAY)
    }
}

impl Writer {
    fn use_type(&mut self, ty: &str)
        ensures
            final(self)@ == old(self)@.use_type(ty@),
    {
        set_put(&mut self.used_types, ty);
    }

    fn current_limit<C: Calc>(
        &mut self,
        math: &C,
        name: &str,
        suffix: &str,
        value: Bits,
        norm: Bits,
        ty: &str,
    ) -> (r: Json)
        ensures
            (final(self)@, r@) == old(self)@.current_limit(
                math.sem(),
                name@,
                suffix@,
                value,
                norm,
                ty@,
            ),
    {
        reveal(WriterV::current_limit);
        let mut o = identified("CurrentLimit", cat3(name, "_", suffix).as_str(), None);
        self.put_num(math, &mut o, "CurrentLimit.value", value, "current limit");
        self.put_num(math, &mut o, "CurrentLimit.normalValue", norm, "current limit");
        o.put(
            "OperationalLimit.OperationalLimitType".to_owned(),
            pointer("OperationalLimitType", ty),
        );
        self.use_type(ty);
        object(o)
    }

    pub fn current_limit_set<C: Calc>(&mut self, math: &C, norm: Bits, emerg: Bits) -> (r: String)
        ensures
            (final(self)@, r@) == old(self)@.current_limit_set(math.sem(), norm, emerg),
    {
        reveal(WriterV::current_limit_set);
        let n = fdisp(math, norm);
        let e = fdisp(math, emerg);
        let name = cat4("OpLimI_", n.as_str(), "_", e.as_str());
        if !self.limit_sets.has(name.as_str()) {
            let a = self.current_limit(
                math,
                name.as_str(),
                "Norm",
                norm,
                norm,
                "absoluteValueType_5000000000.0s",
            );
            let b = self.current_limit(
                math,
                name.as_str(),
                "Emerg",
                emerg,
                norm,
                "absoluteValueType_86400.0s",
            );
            let mut set = identified("OperationalLimitSet", name.as_str(), None);
            set.put("OperationalLimitSet.OperationalLimitValue".to_owned(), array2(a, b));
            self.limit_sets.put(name.clone(), object(set));
        }
        name
    }

    pub fn ampacity<C: Calc>(&mut self, math: &C, norm: Option<Bits>, emerg: Option<Bits>) -> (r:
        Option<String>)
        ensures
            (final(self)@, opt_view(r)) == old(self)@.ampacity(math.sem(), norm, emerg),
    {
        match (norm, emerg) {
            (Some(n), Some(e)) => Some(self.current_limit_set(math, n, e)),
            (None, Some(e)) => Some(self.current_limit_set(math, e, e)),
            (Some(n), None) => Some(self.current_limit_set(math, n, n)),
            (None, None) => None,
        }
    }

    fn voltage_limit<C: Calc>(
        &mut self,
        math: &C,
        name: &str,
        suffix: &str,
        value: Bits,
        normal: Option<Bits>,
        ty: &str,
    ) -> (r: Json)
        ensures
            (final(self)@, r@) == old(self)@.voltage_limit(
                math.sem(),
                name@,
                suffix@,
                value,
                normal,
                ty@,
            ),
    {
        reveal(WriterV::voltage_limit);
        let mut o = identified("VoltageLimit", cat3(name, "_", suffix).as_str(), None);
        self.put_num(math, &mut o, "VoltageLimit.value", value, "voltage limit");
        self.put_opt(math, &mut o, "VoltageLimit.normalValue", normal, "voltage limit");
        o.put(
            "OperationalLimit.OperationalLimitType".to_owned(),
            pointer("OperationalLimitType", ty),
        );
        self.use_type(ty);
        object(o)
    }

    pub fn voltage_limit_set<C: Calc>(
        &mut self,
        math: &C,
        low: Bits,
        high: Bits,
        normal: Option<Bits>,
    ) -> (r: String)
        ensures
            (final(self)@, r@) == old(self)@.voltage_limit_set(math.sem(), low, high, normal),
    {
        reveal(WriterV::voltage_limit_set);
        let l = fdisp(math, low);
        let h = fdisp(math, high);
        let name = cat4("OpLimV_", l.as_str(), "-", h.as_str());
        if !self.limit_sets.has(name.as_str()) {
            let a = self.voltage_limit(
                math,
                name.as_str(),
                "RangeAlow",
                low,
                normal,
                "lowType_5000000000.0s",
            );
            let b = self.voltage_limit(
                math,
                name.as_str(),
                "RangeAhigh",
                high,
                normal,
                "highType_5000000000.0s",
            );
            let mut set = identified("OperationalLimitSet", name.as_str(), None);
            set.put("OperationalLimitSet.OperationalLimitValue".to_owned(), array2(a, b));
            self.limit_sets.put(name.clone(), object(set));
        }
        name
    }

    pub fn bus_voltage_limit<C: Calc>(
        &mut self,
        math: &C,
        net: &DistNetwork,
        bus: &str,
    ) -> (r: Option<
        String,
    >)
        ensures
            (final(self)@, opt_view(r)) == old(self)@.bus_voltage_limit(
                math.sem(),
                net@,
                bus@,
            ),
    {
        reveal(WriterV::bus_voltage_limit);
        match net.bus(bus) {
            Some(b) => match (b.v_min, b.v_max) {
                (Some(low), Some(high)) => {
                    let normal = self.base_of(bus);
                    Some(self.voltage_limit_set(math, low, high, normal))
                },
                _ => None,
            },
            None => None,
        }
    }

    fn add_type<C: Calc>(
        &mut self,
        math: &C,
        table: &mut JsonMap,
        name: &str,
        direction: &str,
        duration: Bits,
    )
        ensures
            (final(self)@, final(table)@) == old(self)@.add_type(
                math.sem(),
                old(table)@,
                name@,
                direction@,
                duration,
            ),
    {
        if contains(&self.used_types, name) {
            let mut o = identified("OperationalLimitType", name, None);
            o.put(
                "OperationalLimitType.direction".to_owned(),
                Json::Str(cat2("OperationalLimitDirectionKind.", direction)),
            );
            self.put_num(
                math,
                &mut o,
                "OperationalLimitType.acceptableDuration",
                duration,
                "limit type",
            );
            table.put(name.to_owned(), object(o));
        }
    }

    pub fn limit_types<C: Calc>(&mut self, math: &C) -> (r: JsonMap)
        ensures
            (final(self)@, r@) == old(self)@.limit_types(math.sem()),
    {
        reveal(WriterV::limit_types);
        let mut t = JsonMap::new();
        self.add_type(math, &mut t, "lowType_5000000000.0s", "low", FIVE_BILLION);
        self.add_type(math, &mut t, "highType_5000000000.0s", "high", FIVE_BILLION);
        self.add_type(
            math,
            &mut t,
            "absoluteValueType_5000000000.0s",
            "absoluteValue",
            FIVE_BILLION,
        );
        self.add_type(math, &mut t, "absoluteValueType_86400.0s", "absoluteValue", DAY);
        t
    }
}

} // verus!
