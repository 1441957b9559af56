//! Schema descriptions: the fields of an index with their kinds and
//! indexing options, read from the codes that callers hand over, and the
//! options the search engine is configured with for each field.
use vstd::prelude::*;

verus! {

#[derive(Debug)]
pub struct BurkazSchemaField {
    pub name: String,
    pub options: BurkazSchemaFieldOptions,
}

impl BurkazSchemaField {
    pub fn new(name: String, options: BurkazSchemaFieldOptions) -> (r: Self)
        ensures
            r.name == name,
            r.options == options,
    {
        BurkazSchemaField { name, options }
    }
}

#[derive(Debug)]
pub enum BurkazSchemaFieldType {
    Int64,
    Text,
    Boolean,
}

#[derive(Debug)]
pub struct BurkazSchemaFieldOptions {
    pub typ: BurkazSchemaFieldType,
    pub stored: bool,
    pub coerce: bool,
    pub indexed: bool,
    pub fieldnorms: bool,
    pub fast: bool,
    pub indexing_strategy: Option<BurkazIndexingStrategy>,
    pub fast_tokenizer: Option<String>,
    pub indexing_tokenizer: Option<String>,
}

/// What the search engine records for each occurrence of a term.
#[derive(Debug, Copy, Clone, PartialEq, Eq, Structural)]
pub enum BurkazIndexingStrategy {
    Basic,
    Frequencies,
    FrequenciesAndPositions,
}

impl Default for BurkazIndexingStrategy {
    fn default() -> (r: Self)
        ensures
            r == BurkazIndexingStrategy::Basic,
    {
        BurkazIndexingStrategy::Basic
    }
}

/// The code of each strategy: 1, 2 and 3.
pub open spec fn strategy_code(s: BurkazIndexingStrategy) -> u8 {
    match s {
        BurkazIndexingStrategy::Basic => 1,
        BurkazIndexingStrategy::Frequencies => 2,
        BurkazIndexingStrategy::FrequenciesAndPositions => 3,
    }
}

/// The strategy with a code; codes other than 1, 2 and 3 name none.
pub open spec fn strategy_of_code(code: u8) -> Option<BurkazIndexingStrategy> {
    if code == 1 {
        Some(BurkazIndexingStrategy::Basic)
    } else if code == 2 {
        Some(BurkazIndexingStrategy::Frequencies)
    } else if code == 3 {
        Some(BurkazIndexingStrategy::FrequenciesAndPositions)
    } else {
        None
    }
}

impl BurkazIndexingStrategy {
    pub fn from_code(code: u8) -> (r: Option<Self>)
        ensures
            r == strategy_of_code(code),
    {
        match code {
            1 => Some(BurkazIndexingStrategy::Basic),
            2 => Some(BurkazIndexingStrategy::Frequencies),
            3 => Some(BurkazIndexingStrategy::FrequenciesAndPositions),
            _ => None,
        }
    }

    pub fn to_code(self) -> (r: u8)
        ensures
            r == strategy_code(self),
    {
        match self {
            BurkazIndexingStrategy::Basic => 1,
            BurkazIndexingStrategy::Frequencies => 2,
            BurkazIndexingStrategy::FrequenciesAndPositions => 3,
        }
    }
}

/// A strategy's code names the strategy, and a code names a strategy
/// exactly when it is the code of that strategy.
pub proof fn lemma_strategy_code_roundtrip(s: BurkazIndexingStrategy, code: u8)
    ensures
        strategy_of_code(strategy_code(s)) == Some(s),
        strategy_of_code(code) is Some <==> 1 <= code <= 3,
        strategy_of_code(code) matches Some(t) ==> strategy_code(t) == code,
{
}

#[derive(Debug)]
pub struct BurkazSchema {
    fields: Vec<BurkazSchemaField>,
}

impl Default for BurkazSchema {
    fn default() -> (r: Self)
        ensures
            r.fields() == Seq::<BurkazSchemaField>::empty(),
    {
        BurkazSchema { fields: Vec::new() }
    }
}

impl BurkazSchema {
    /// The fields, in the order they were added.
    pub closed spec fn fields(&self) -> Seq<BurkazSchemaField> {
        self.fields@
    }

    pub fn add_field(&mut self, field: BurkazSchemaField)
        ensures
            final(self).fields() == old(self).fields().push(field),
    {
        self.fields.push(field);
    }

    /// How many fields there are.
    pub fn field_count(&self) -> (r: usize)
        ensures
            r == self.fields().len(),
    {
        self.fields.len()
    }

    /// The fields, in the order they were added, handed over to build the
    /// search engine's schema.
    pub fn into_fields(self) -> (r: Vec<BurkazSchemaField>)
        ensures
            r@ == self.fields(),
    {
        self.fields
    }
}

/// The options of an integer or boolean field as the search engine takes them.
#[derive(Debug)]
pub struct NumericFieldPlan {
    pub indexed: bool,
    pub fast: bool,
    pub stored: bool,
    pub fieldnorms: bool,
    pub coerce: bool,
}

/// How a text field is indexed: the strategy and tokenizer to set (the
/// engine's defaults where `None`) and whether field norms are kept.
#[derive(Debug)]
pub struct TextIndexingPlan {
    pub strategy: Option<BurkazIndexingStrategy>,
    pub tokenizer: Option<String>,
    pub fieldnorms: bool,
}

/// The options of a text field as the search engine takes them: indexing
/// only where the field is indexed, and a fast column (with its optional
/// tokenizer) only where the field is fast.
#[derive(Debug)]
pub struct TextFieldPlan {
    pub stored: bool,
    pub coerce: bool,
    pub indexing: Option<TextIndexingPlan>,
    pub fast: Option<Option<String>>,
}

/// The type and options of a field as the search engine takes them.
#[derive(Debug)]
pub enum FieldTypePlan {
    I64(NumericFieldPlan),
    Str(TextFieldPlan),
    Bool(NumericFieldPlan),
}

/// `n` carries every flag of `o` over as it is.
pub open spec fn numeric_plan_of(n: NumericFieldPlan, o: BurkazSchemaFieldOptions) -> bool {
    &&& n.indexed == o.indexed
    &&& n.fast == o.fast
    &&& n.stored == o.stored
    &&& n.fieldnorms == o.fieldnorms
    &&& n.coerce == o.coerce
}

/// `t` keeps the stored and coerce flags of `o`, has indexing options
/// exactly where `o` is indexed (with its strategy, tokenizer and norms
/// flag), and a fast column with its tokenizer exactly where `o` is fast.
pub open spec fn text_plan_of(t: TextFieldPlan, o: BurkazSchemaFieldOptions) -> bool {
    &&& t.stored == o.stored
    &&& t.coerce == o.coerce
    &&& (o.indexed <==> t.indexing is Some)
    &&& o.indexed ==> t.indexing.unwrap().strategy == o.indexing_strategy
        && t.indexing.unwrap().tokenizer == o.indexing_tokenizer
        && t.indexing.unwrap().fieldnorms == o.fieldnorms
    &&& t.fast == (if o.fast {
        Some(o.fast_tokenizer)
    } else {
        None
    })
}

/// Numeric options carry every flag over from the flag of the same name.
pub proof fn lemma_numeric_plan_flags(n: NumericFieldPlan, o: BurkazSchemaFieldOptions)
    requires
        numeric_plan_of(n, o),
    ensures
        n.indexed == o.indexed,
        n.fast == o.fast,
        n.stored == o.stored,
        n.fieldnorms == o.fieldnorms,
        n.coerce == o.coerce,
{
}

/// Text options keep the stored and coerce flags; an indexed text field
/// is indexed with its own strategy, tokenizer and field-norms flag,
/// whatever its other flags are; a fast field gets its fast tokenizer.
pub proof fn lemma_text_plan_flags(t: TextFieldPlan, o: BurkazSchemaFieldOptions)
    requires
        text_plan_of(t, o),
    ensures
        t.stored == o.stored,
        t.coerce == o.coerce,
        t.indexing is Some <==> o.indexed,
        o.indexed ==> t.indexing.unwrap().fieldnorms == o.fieldnorms,
        o.indexed ==> t.indexing.unwrap().strategy == o.indexing_strategy,
        o.indexed ==> t.indexing.unwrap().tokenizer == o.indexing_tokenizer,
        t.fast is Some <==> o.fast,
        o.fast ==> t.fast.unwrap() == o.fast_tokenizer,
{
}

impl BurkazSchemaFieldOptions {
    /// The numeric options: every flag carried over as it is.
    pub fn numeric_options(&self) -> (r: NumericFieldPlan)
        ensures
            numeric_plan_of(r, *self),
            r.indexed == self.indexed,
            r.fast == self.fast,
            r.stored == self.stored,
            r.fieldnorms == self.fieldnorms,
            r.coerce == self.coerce,
    {
        NumericFieldPlan {
            indexed: self.indexed,
            fast: self.fast,
            stored: self.stored,
            fieldnorms: self.fieldnorms,
            coerce: self.coerce,
        }
    }

    /// The text options.
    pub fn text_options(self) -> (r: TextFieldPlan)
        ensures
            text_plan_of(r, self),
            r.stored == self.stored,
            r.coerce == self.coerce,
            r.indexing is Some <==> self.indexed,
            self.indexed ==> r.indexing.unwrap().fieldnorms == self.fieldnorms,
            self.indexed ==> r.indexing.unwrap().strategy == self.indexing_strategy,
            self.indexed ==> r.indexing.unwrap().tokenizer == self.indexing_tokenizer,
            r.fast is Some <==> self.fast,
            self.fast ==> r.fast.unwrap() == self.fast_tokenizer,
    {
        let indexing = if self.indexed {
            Some(
                TextIndexingPlan {
                    strategy: self.indexing_strategy,
                    tokenizer: self.indexing_tokenizer,
                    fieldnorms: self.fieldnorms,
                },
            )
        } else {
            None
        };
        let fast = if self.fast {
            Some(self.fast_tokenizer)
        } else {
            None
        };
        TextFieldPlan { stored: self.stored, coerce: self.coerce, indexing, fast }
    }

    /// The field's type with its options: numeric options for integers and
    /// booleans, text options for text.
    pub fn into_field_type(self) -> (r: FieldTypePlan)
        ensures
            self.typ is Int64 ==> (r matches FieldTypePlan::I64(n) && numeric_plan_of(n, self)),
            self.typ is Boolean ==> (r matches FieldTypePlan::Bool(n) && numeric_plan_of(n, self)),
            self.typ is Text ==> (r matches FieldTypePlan::Str(t) && text_plan_of(t, self)),
            r matches FieldTypePlan::I64(n) ==> n.indexed == self.indexed && n.fast == self.fast
                && n.stored == self.stored && n.fieldnorms == self.fieldnorms && n.coerce
                == self.coerce,
            r matches FieldTypePlan::Bool(n) ==> n.indexed == self.indexed && n.fast == self.fast
                && n.stored == self.stored && n.fieldnorms == self.fieldnorms && n.coerce
                == self.coerce,
            r matches FieldTypePlan::Str(t) ==> t.stored == self.stored && t.coerce == self.coerce
                && (t.indexing is Some <==> self.indexed) && (self.indexed
                ==> t.indexing.unwrap().fieldnorms == self.fieldnorms) && (t.fast is Some
                <==> self.fast),
    {
        match self.typ {
            BurkazSchemaFieldType::Int64 => FieldTypePlan::I64(self.numeric_options()),
            BurkazSchemaFieldType::Boolean => FieldTypePlan::Bool(self.numeric_options()),
            BurkazSchemaFieldType::Text => FieldTypePlan::Str(self.text_options()),
        }
    }
}

/// The ids of the fields the query parser matches fuzzily: the indexed
/// text fields, numbered by their position in the schema.
pub open spec fn fuzzy_field_ids(fields: Seq<BurkazSchemaField>) -> Seq<u32>
    decreases fields.len(),
{
    if fields.len() == 0 {
        Seq::empty()
    } else {
        let before = fuzzy_field_ids(fields.drop_last());
        let f = fields.last();
        if f.options.indexed && f.options.typ is Text {
            before.push((fields.len() - 1) as u32)
        } else {
            before
        }
    }
}

/// The fuzzy field ids are exactly the positions of the indexed text
/// fields, in increasing order: id `i` is listed exactly when field `i` is
/// indexed and of text kind, and no other id is listed.
pub proof fn lemma_fuzzy_field_ids(fields: Seq<BurkazSchemaField>)
    requires
        fields.len() <= u32::MAX + 1,
    ensures
        forall|k: int|
            0 <= k < fuzzy_field_ids(fields).len() ==> (#[trigger] fuzzy_field_ids(fields)[k])
                < fields.len(),
        forall|j: int, k: int|
            0 <= j < k < fuzzy_field_ids(fields).len() ==> fuzzy_field_ids(fields)[j]
                < fuzzy_field_ids(fields)[k],
        forall|i: int|
            0 <= i < fields.len() ==> (fuzzy_field_ids(fields).contains(i as u32) <==> (
            #[trigger] fields[i]).options.indexed && fields[i].options.typ is Text),
    decreases fields.len(),
{
    if fields.len() > 0 {
        let init = fields.drop_last();
        lemma_fuzzy_field_ids(init);
        let before = fuzzy_field_ids(init);
        let r = fuzzy_field_ids(fields);
        let last = (fields.len() - 1) as u32;
        assert forall|i: int| 0 <= i < fields.len() implies (r.contains(i as u32) <==> (
        #[trigger] fields[i]).options.indexed && fields[i].options.typ is Text) by {
            if i < init.len() {
                assert(fields[i] == init[i]);
                if r.contains(i as u32) {
                    let k = choose|k: int| 0 <= k < r.len() && r[k] == i as u32;
                    if k < before.len() {
                        assert(r[k] == before[k]);
                        assert(before.contains(i as u32));
                    } else {
                        assert(r[k] == last);
                    }
                }
                if before.contains(i as u32) {
                    let k = choose|k: int| 0 <= k < before.len() && before[k] == i as u32;
                    assert(r[k] == before[k]);
                }
            } else {
                if r.contains(i as u32) {
                    let k = choose|k: int| 0 <= k < r.len() && r[k] == i as u32;
                    if k < before.len() {
                        assert(r[k] == before[k]);
                        assert(before[k] < init.len());
                    }
                }
                if fields[i].options.indexed && fields[i].options.typ is Text {
                    assert(r[before.len() as int] == last);
                }
            }
        }
    }
}

impl BurkazSchema {
    /// The ids of the fields the query parser matches fuzzily.
    pub fn fuzzy_fields(&self) -> (r: Vec<u32>)
        requires
            self.fields().len() <= u32::MAX,
        ensures
            r@ == fuzzy_field_ids(self.fields()),
            forall|i: int|
                0 <= i < self.fields().len() ==> (r@.contains(i as u32) <==> (
                #[trigger] self.fields()[i]).options.indexed && self.fields()[i].options.typ is Text),
            forall|k: int| 0 <= k < r@.len() ==> (#[trigger] r@[k]) < self.fields().len(),
            forall|j: int, k: int| 0 <= j < k < r@.len() ==> r@[j] < r@[k],
    {
        proof {
            lemma_fuzzy_field_ids(self.fields());
        }
        let mut out: Vec<u32> = Vec::new();
        let mut i: usize = 0;
        while i < self.fields.len()
            invariant
                i <= self.fields@.len(),
                self.fields@.len() <= u32::MAX,
                out@ == fuzzy_field_ids(self.fields@.subrange(0, i as int)),
            decreases self.fields@.len() - i,
        {
            proof {
                assert(self.fields@.subrange(0, i + 1).drop_last() =~= self.fields@.subrange(
                    0,
                    i as int,
                ));
            }
            let f = &self.fields[i];
            if f.options.indexed {
                match f.options.typ {
                    BurkazSchemaFieldType::Text => out.push(i as u32),
                    _ => {},
                }
            }
            i = i + 1;
        }
        assert(self.fields@.subrange(0, self.fields@.len() as int) =~= self.fields@);
        out
    }
}

/// Field options as a caller hands them over: the field kind and each flag
/// as a byte code, the strategy code, and the optional tokenizer names.
#[derive(Debug)]
pub struct NativeFieldOptions {
    pub typ: u8,
    pub stored: u8,
    pub coerce: u8,
    pub indexed: u8,
    pub fieldnorms: u8,
    pub fast: u8,
    pub indexing_strategy: u8,
    pub fast_tokenizer: Option<String>,
    pub indexing_tokenizer: Option<String>,
}

/// A field as a caller hands it over: its name and its coded options.
#[derive(Debug)]
pub struct NativeField {
    pub name: String,
    pub options: NativeFieldOptions,
}

/// The field kind with a code: 1 integer, 2 text, 3 boolean.
pub open spec fn field_type_of_code(code: u8) -> Option<BurkazSchemaFieldType> {
    if code == 1 {
        Some(BurkazSchemaFieldType::Int64)
    } else if code == 2 {
        Some(BurkazSchemaFieldType::Text)
    } else if code == 3 {
        Some(BurkazSchemaFieldType::Boolean)
    } else {
        None
    }
}

/// A flag byte: 1 is true, 0 is false, anything else is no flag.
pub open spec fn flag_of_code(code: u8) -> Option<bool> {
    if code == 1 {
        Some(true)
    } else if code == 0 {
        Some(false)
    } else {
        None
    }
}

/// The options that coded options stand for: present exactly where the
/// kind code and every flag byte are valid. An unknown strategy code
/// leaves the strategy unset.
pub open spec fn options_of_native(c: NativeFieldOptions) -> Option<BurkazSchemaFieldOptions> {
    if field_type_of_code(c.typ) is Some && flag_of_code(c.fast) is Some && flag_of_code(
        c.stored,
    ) is Some && flag_of_code(c.coerce) is Some && flag_of_code(c.indexed) is Some
        && flag_of_code(c.fieldnorms) is Some {
        Some(
            BurkazSchemaFieldOptions {
                typ: field_type_of_code(c.typ).unwrap(),
                fast: flag_of_code(c.fast).unwrap(),
                stored: flag_of_code(c.stored).unwrap(),
                coerce: flag_of_code(c.coerce).unwrap(),
                indexed: flag_of_code(c.indexed).unwrap(),
                fieldnorms: flag_of_code(c.fieldnorms).unwrap(),
                indexing_strategy: strategy_of_code(c.indexing_strategy),
                fast_tokenizer: c.fast_tokenizer,
                indexing_tokenizer: c.indexing_tokenizer,
            },
        )
    } else {
        None
    }
}

fn flag_from_code(code: u8) -> (r: Option<bool>)
    ensures
        r == flag_of_code(code),
{
    match code {
        1 => Some(true),
        0 => Some(false),
        _ => None,
    }
}

fn clone_name(name: &Option<String>) -> (r: Option<String>)
    ensures
        r == *name,
{
    match name {
        Some(s) => Some(s.clone()),
        None => None,
    }
}

/// Coded options are valid exactly where the kind code is 1, 2 or 3 and
/// every flag byte is 0 or 1; each flag of the options then comes from its
/// own byte (1 is true), the kind from the kind code, the strategy from the
/// strategy code (1, 2, 3; any other leaves it unset), and the tokenizers
/// are handed over as they are.
pub proof fn lemma_native_options(c: NativeFieldOptions)
    ensures
        options_of_native(c) is Some <==> (1 <= c.typ <= 3 && c.stored <= 1 && c.coerce <= 1
            && c.indexed <= 1 && c.fieldnorms <= 1 && c.fast <= 1),
        options_of_native(c) matches Some(o) ==> {
            &&& o.stored == (c.stored == 1)
            &&& o.coerce == (c.coerce == 1)
            &&& o.indexed == (c.indexed == 1)
            &&& o.fieldnorms == (c.fieldnorms == 1)
            &&& o.fast == (c.fast == 1)
            &&& (c.typ == 1 <==> o.typ is Int64)
            &&& (c.typ == 2 <==> o.typ is Text)
            &&& (c.typ == 3 <==> o.typ is Boolean)
            &&& (c.indexing_strategy == 1 <==> o.indexing_strategy == Some(
                BurkazIndexingStrategy::Basic,
            ))
            &&& (c.indexing_strategy == 2 <==> o.indexing_strategy == Some(
                BurkazIndexingStrategy::Frequencies,
            ))
            &&& (c.indexing_strategy == 3 <==> o.indexing_strategy == Some(
                BurkazIndexingStrategy::FrequenciesAndPositions,
            ))
            &&& (o.indexing_strategy is None <==> !(1 <= c.indexing_strategy <= 3))
            &&& o.fast_tokenizer == c.fast_tokenizer
            &&& o.indexing_tokenizer == c.indexing_tokenizer
        },
{
}

/// The options that coded options stand for; `None` where the kind code
/// or a flag byte is not valid.
pub fn options_from_native(c_options: &NativeFieldOptions) -> (r: Option<BurkazSchemaFieldOptions>)
    ensures
        r == options_of_native(*c_options),
        r is Some <==> (1 <= c_options.typ <= 3 && c_options.stored <= 1 && c_options.coerce <= 1
            && c_options.indexed <= 1 && c_options.fieldnorms <= 1 && c_options.fast <= 1),
        r matches Some(o) ==> {
            &&& o.stored == (c_options.stored == 1)
            &&& o.coerce == (c_options.coerce == 1)
            &&& o.indexed == (c_options.indexed == 1)
            &&& o.fieldnorms == (c_options.fieldnorms == 1)
            &&& o.fast == (c_options.fast == 1)
            &&& (c_options.typ == 1 <==> o.typ is Int64)
            &&& (c_options.typ == 2 <==> o.typ is Text)
            &&& (c_options.typ == 3 <==> o.typ is Boolean)
        },
{
    proof {
        lemma_native_options(*c_options);
    }
    let typ = match c_options.typ {
        1 => BurkazSchemaFieldType::Int64,
        2 => BurkazSchemaFieldType::Text,
        3 => BurkazSchemaFieldType::Boolean,
        _ => return None,
    };
    let indexing_strategy = BurkazIndexingStrategy::from_code(c_options.indexing_strategy);
    let fast = match flag_from_code(c_options.fast) {
        Some(b) => b,
        None => return None,
    };
    let stored = match flag_from_code(c_options.stored) {
        Some(b) => b,
        None => return None,
    };
    let coerce = match flag_from_code(c_options.coerce) {
        Some(b) => b,
        None => return None,
    };
    let indexed = match flag_from_code(c_options.indexed) {
        Some(b) => b,
        None => return None,
    };
    let fieldnorms = match flag_from_code(c_options.fieldnorms) {
        Some(b) => b,
        None => return None,
    };
    Some(
        BurkazSchemaFieldOptions {
            typ,
            fast,
            stored,
            coerce,
            indexed,
            fieldnorms,
            indexing_strategy,
            fast_tokenizer: clone_name(&c_options.fast_tokenizer),
            indexing_tokenizer: clone_name(&c_options.indexing_tokenizer),
        },
    )
}

/// The schema fields that coded fields stand for, in order; a field whose
/// options are not valid is left out.
pub open spec fn fields_of_native(fields: Seq<NativeField>) -> Seq<BurkazSchemaField>
    decreases fields.len(),
{
    if fields.len() == 0 {
        Seq::empty()
    } else {
        let before = fields_of_native(fields.drop_last());
        let f = fields.last();
        match options_of_native(f.options) {
            Some(o) => before.push(BurkazSchemaField { name: f.name, options: o }),
            None => before,
        }
    }
}

impl BurkazSchema {
    /// The schema of the coded fields a caller hands over; fields whose
    /// options are not valid are left out.
    pub fn from_native_fields(fields: &Vec<NativeField>) -> (r: Self)
        ensures
            r.fields() == fields_of_native(fields@),
    {
        let mut schema = BurkazSchema::default();
        let mut i: usize = 0;
        while i < fields.len()
            invariant
                i <= fields@.len(),
                schema.fields() == fields_of_native(fields@.subrange(0, i as int)),
            decreases fields@.len() - i,
        {
            proof {
                assert(fields@.subrange(0, i + 1).drop_last() =~= fields@.subrange(0, i as int));
            }
            let c_field = &fields[i];
            match options_from_native(&c_field.options) {
                Some(options) => {
                    let field = BurkazSchemaField::new(c_field.name.clone(), options);
                    schema.add_field(field);
                },
                None => {},
            }
            i = i + 1;
        }
        assert(fields@.subrange(0, fields@.len() as int) =~= fields@);
        schema
    }
}

} // verus!
