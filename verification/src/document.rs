use vstd::prelude::*;

use crate::error::TipupError;

verus! {

/// One decoded value out of a stored record: the plain form in which the
/// core consumes the otherwise opaque data of its collaborator stores.
pub enum Value {
    /// A text value.
    Text(String),
    /// A 64-bit integer value.
    Int(i64),
    /// A list of values, used for analyzer parameter lists.
    List(Vec<Value>),
}

/// One named field of a decoded record.
pub struct DocField {
    pub name: String,
    pub value: Value,
}

/// The value of the first field called `key` in `fields`, if any.
pub open spec fn field_value(fields: Seq<DocField>, key: Seq<char>) -> Option<Value>
    decreases fields.len(),
{
    if fields.len() == 0 {
        None
    } else if fields[0].name@ == key {
        Some(fields[0].value)
    } else {
        field_value(fields.drop_first(), key)
    }
}

/// The text of the first field called `key`, if it exists and holds text.
pub open spec fn text_field(fields: Seq<DocField>, key: Seq<char>) -> Option<String> {
    match field_value(fields, key) {
        Some(Value::Text(s)) => Some(s),
        _ => None,
    }
}

/// The integer of the first field called `key`, if it exists and holds one.
pub open spec fn int_field(fields: Seq<DocField>, key: Seq<char>) -> Option<i64> {
    match field_value(fields, key) {
        Some(Value::Int(n)) => Some(n),
        _ => None,
    }
}

/// The list of the first field called `key`, if it exists and holds one.
pub open spec fn list_field(fields: Seq<DocField>, key: Seq<char>) -> Option<Vec<Value>> {
    match field_value(fields, key) {
        Some(Value::List(l)) => Some(l),
        _ => None,
    }
}

/// Finds the first field called `key` and returns its index.
pub fn find_field(fields: &Vec<DocField>, key: &String) -> (r: Option<usize>)
    ensures
        match r {
            Some(i) => i < fields@.len() && fields@[i as int].name@ == key@
                && field_value(fields@, key@) == Some(fields@[i as int].value),
            None => field_value(fields@, key@) is None,
        },
{
    let mut i: usize = 0;
    proof {
        assert(fields@.skip(0) =~= fields@);
    }
    while i < fields.len()
        invariant
            i <= fields@.len(),
            field_value(fields@, key@) == field_value(fields@.skip(i as int), key@),
        decreases fields@.len() - i,
    {
        proof {
            assert(fields@.skip(i as int)[0] == fields@[i as int]);
        }
        if fields[i].name == *key {
            return Some(i);
        }
        proof {
            assert(fields@.skip(i as int).drop_first() =~= fields@.skip(i + 1 as int));
        }
        i = i + 1;
    }
    None
}

/// One measurement observation in decoded form. `hostname`, `measurement`
/// and `timestamp` are the fields the pipeline itself reads; the payload
/// keeps the whole record for the analyzers, whose fields are
/// measurement-specific.
pub struct ResultDocument {
    pub hostname: String,
    pub measurement: String,
    pub timestamp: i64,
    pub payload: Vec<DocField>,
}

/// One stored analyzer definition in decoded form.
pub struct AnalyzerDefinition {
    pub name: String,
    pub class: String,
    pub measurement: String,
    pub parameters: Vec<Value>,
}

/// Whether a decoded record carries the three fields every result document
/// must have, each with the right type.
pub open spec fn result_fields_ok(record: Seq<DocField>) -> bool {
    &&& text_field(record, "hostname"@) is Some
    &&& text_field(record, "measurement"@) is Some
    &&& int_field(record, "timestamp"@) is Some
}

/// Decodes a result record. The record must carry text `hostname` and
/// `measurement` fields and an integer `timestamp` field; the whole record
/// is kept as the document's payload. The fields are checked in that order,
/// and the first one missing or mistyped names the error.
pub fn parse_result_document(record: Vec<DocField>) -> (r: Result<ResultDocument, TipupError>)
    ensures
        r is Ok <==> result_fields_ok(record@),
        match r {
            Ok(doc) => {
                &&& text_field(record@, "hostname"@) == Some(doc.hostname)
                &&& text_field(record@, "measurement"@) == Some(doc.measurement)
                &&& int_field(record@, "timestamp"@) == Some(doc.timestamp)
                &&& doc.payload == record
            },
            Err(e) => {
                if text_field(record@, "hostname"@) is None {
                    e == TipupError::ResultHostnameField
                } else if text_field(record@, "measurement"@) is None {
                    e == TipupError::ResultMeasurementField
                } else {
                    e == TipupError::ResultTimestampField
                }
            },
        },
{
    let hostname_key = "hostname".to_owned();
    let hostname = match find_field(&record, &hostname_key) {
        Some(i) => match &record[i].value {
            Value::Text(s) => s.clone(),
            _ => {
                return Err(TipupError::ResultHostnameField);
            },
        },
        None => {
            return Err(TipupError::ResultHostnameField);
        },
    };
    let measurement_key = "measurement".to_owned();
    let measurement = match find_field(&record, &measurement_key) {
        Some(i) => match &record[i].value {
            Value::Text(s) => s.clone(),
            _ => {
                return Err(TipupError::ResultMeasurementField);
            },
        },
        None => {
            return Err(TipupError::ResultMeasurementField);
        },
    };
    let timestamp_key = "timestamp".to_owned();
    let timestamp = match find_field(&record, &timestamp_key) {
        Some(i) => match &record[i].value {
            Value::Int(n) => *n,
            _ => {
                return Err(TipupError::ResultTimestampField);
            },
        },
        None => {
            return Err(TipupError::ResultTimestampField);
        },
    };
    Ok(ResultDocument { hostname, measurement, timestamp, payload: record })
}

/// Whether a decoded record carries the four fields of an analyzer
/// definition, each with the right type.
pub open spec fn definition_fields_ok(record: Seq<DocField>) -> bool {
    &&& text_field(record, "name"@) is Some
    &&& text_field(record, "class"@) is Some
    &&& text_field(record, "measurement"@) is Some
    &&& list_field(record, "parameters"@) is Some
}

/// Decodes an analyzer definition record. The record must carry text
/// `name`, `class` and `measurement` fields and a list `parameters` field.
/// The fields are checked in that order, and the first one missing or
/// mistyped names the error.
pub fn parse_analyzer_definition(record: Vec<DocField>) -> (r: Result<AnalyzerDefinition, TipupError>)
    ensures
        r is Ok <==> definition_fields_ok(record@),
        match r {
            Ok(def) => {
                &&& text_field(record@, "name"@) == Some(def.name)
                &&& text_field(record@, "class"@) == Some(def.class)
                &&& text_field(record@, "measurement"@) == Some(def.measurement)
                &&& list_field(record@, "parameters"@) == Some(def.parameters)
            },
            Err(e) => {
                if text_field(record@, "name"@) is None {
                    e == TipupError::AnalyzerNameField
                } else if text_field(record@, "class"@) is None {
                    e == TipupError::AnalyzerClassField
                } else if text_field(record@, "measurement"@) is None {
                    e == TipupError::AnalyzerMeasurementField
                } else {
                    e == TipupError::AnalyzerParametersField
                }
            },
        },
{
    let mut record = record;
    let name_key = "name".to_owned();
    let name = match find_field(&record, &name_key) {
        Some(i) => match &record[i].value {
            Value::Text(s) => s.clone(),
            _ => {
                return Err(TipupError::AnalyzerNameField);
            },
        },
        None => {
            return Err(TipupError::AnalyzerNameField);
        },
    };
    let class_key = "class".to_owned();
    let class = match find_field(&record, &class_key) {
        Some(i) => match &record[i].value {
            Value::Text(s) => s.clone(),
            _ => {
                return Err(TipupError::AnalyzerClassField);
            },
        },
        None => {
            return Err(TipupError::AnalyzerClassField);
        },
    };
    let measurement_key = "measurement".to_owned();
    let measurement = match find_field(&record, &measurement_key) {
        Some(i) => match &record[i].value {
            Value::Text(s) => s.clone(),
            _ => {
                return Err(TipupError::AnalyzerMeasurementField);
            },
        },
        None => {
            return Err(TipupError::AnalyzerMeasurementField);
        },
    };
    let parameters_key = "parameters".to_owned();
    let parameters = match find_field(&record, &parameters_key) {
        Some(i) => {
            let field = record.remove(i);
            match field.value {
                Value::List(l) => l,
                _ => {
                    return Err(TipupError::AnalyzerParametersField);
                },
            }
        },
        None => {
            return Err(TipupError::AnalyzerParametersField);
        },
    };
    Ok(AnalyzerDefinition { name, class, measurement, parameters })
}

} // verus!
