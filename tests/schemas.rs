use rosrust::{
    match_array_field, match_const_numeric, match_const_string, match_field, match_line,
    match_lines, match_vector_field, DataType, FieldCase, FieldInfo, FieldLine, Msg, MsgHashes,
    SchemaError,
};

const POINT_MSG: &str = "# This contains the position of a point in free space
float64 x
float64 y
float64 z
";

const QUATERNION_MSG: &str = "# This represents an orientation in free space in quaternion form.

float64 x
float64 y
float64 z
float64 w
";

const POSE_MSG: &str = "# A representation of pose in free space, composed of position and orientation. 
Point position
Quaternion orientation
";

const TWIST_WITH_COVARIANCE_MSG: &str = "# This expresses velocity in free space with uncertainty.

Twist twist

# Row-major representation of the 6x6 covariance matrix
# The orientation parameters use a fixed-axis representation.
# In order, the parameters are:
# (x, y, z, rotation about X axis, rotation about Y axis, rotation about Z axis)
float64[36] covariance
";

const POSE_STAMPED_MSG: &str = "# A Pose with reference coordinate frame and timestamp
Header header
Pose pose
";

const IMU_MSG: &str = "# This is a message to hold data from an IMU (Inertial Measurement Unit)
#
# Accelerations should be in m/s^2 (not in g's), and rotational velocity should be in rad/sec
#
# If the covariance of the measurement is known, it should be filled in (if all you know is the 
# variance of each measurement, e.g. from the datasheet, just put those along the diagonal)
# A covariance matrix of all zeros will be interpreted as \"covariance unknown\", and to use the
# data a covariance will have to be assumed or gotten from some other source
#
# If you have no estimate for one of the data elements (e.g. your IMU doesn't produce an orientation 
# estimate), please set element 0 of the associated covariance matrix to -1
# If you are interpreting this message, please check for a value of -1 in the first element of each 
# covariance matrix, and disregard the associated estimate.

Header header

geometry_msgs/Quaternion orientation
float64[9] orientation_covariance # Row major about x, y, z axes

geometry_msgs/Vector3 angular_velocity
float64[9] angular_velocity_covariance # Row major about x, y, z axes

geometry_msgs/Vector3 linear_acceleration
float64[9] linear_acceleration_covariance # Row major x, y z 
";

#[test]
fn datatype_md5_string_correct() {
    let mut hashes = MsgHashes::new();
    hashes.insert(("p1".into(), "xx".into()), "ABCD".into());
    hashes.insert(("p2".into(), "xx".into()), "EFGH".into());
    assert_eq!(DataType::I64.md5_string("", &hashes).unwrap(), "int64".to_owned());
    assert_eq!(DataType::F32.md5_string("", &hashes).unwrap(), "float32".to_owned());
    assert_eq!(DataType::String.md5_string("", &hashes).unwrap(), "string".to_owned());
    assert_eq!(
        DataType::LocalStruct("xx".into()).md5_string("p1", &hashes).unwrap(),
        "ABCD".to_owned()
    );
    assert_eq!(
        DataType::LocalStruct("xx".into()).md5_string("p2", &hashes).unwrap(),
        "EFGH".to_owned()
    );
    assert_eq!(
        DataType::RemoteStruct("p1".into(), "xx".into()).md5_string("p2", &hashes).unwrap(),
        "ABCD".to_owned()
    );
}

#[test]
fn fieldinfo_md5_string_correct() {
    let mut hashes = MsgHashes::new();
    hashes.insert(("p1".into(), "xx".into()), "ABCD".into());
    hashes.insert(("p2".into(), "xx".into()), "EFGH".into());
    assert_eq!(
        FieldInfo::new("int64", "abc", FieldCase::Unit).unwrap().md5_string("", &hashes).unwrap(),
        "int64 abc".to_owned()
    );
    assert_eq!(
        FieldInfo::new("float32", "abc", FieldCase::Array(3))
            .unwrap()
            .md5_string("", &hashes)
            .unwrap(),
        "float32[3] abc".to_owned()
    );
    assert_eq!(
        FieldInfo::new("string", "abc", FieldCase::Const("something".into()))
            .unwrap()
            .md5_string("", &hashes)
            .unwrap(),
        "string abc=something".to_owned()
    );
    assert_eq!(
        FieldInfo::new("xx", "abc", FieldCase::Vector).unwrap().md5_string("p1", &hashes).unwrap(),
        "ABCD[] abc".to_owned()
    );
    assert_eq!(
        FieldInfo::new("p2/xx", "abc", FieldCase::Unit).unwrap().md5_string("p1", &hashes).unwrap(),
        "EFGH abc".to_owned()
    );
}

#[test]
fn message_md5_string_correct() {
    assert_eq!(
        Msg::new("std_msgs", "String", "string data")
            .unwrap()
            .calculate_md5(&MsgHashes::new())
            .unwrap(),
        "992ce8a1687cec8c8bd883ec73ca41d1".to_owned()
    );
    assert_eq!(
        Msg::new("geometry_msgs", "Point", POINT_MSG)
            .unwrap()
            .calculate_md5(&MsgHashes::new())
            .unwrap(),
        "4a842b65f413084dc2b10fb484ea7f17".to_owned()
    );
    assert_eq!(
        Msg::new("geometry_msgs", "Quaternion", QUATERNION_MSG)
            .unwrap()
            .calculate_md5(&MsgHashes::new())
            .unwrap(),
        "a779879fadf0160734f906b8c19c7004".to_owned()
    );
    let mut hashes = MsgHashes::new();
    hashes.insert(
        ("geometry_msgs".into(), "Point".into()),
        "4a842b65f413084dc2b10fb484ea7f17".into(),
    );
    hashes.insert(
        ("geometry_msgs".into(), "Quaternion".into()),
        "a779879fadf0160734f906b8c19c7004".into(),
    );
    assert_eq!(
        Msg::new("geometry_msgs", "Pose", POSE_MSG).unwrap().calculate_md5(&hashes).unwrap(),
        "e45d45a5a1ce597b249e23fb30fc871f".to_owned()
    );
}

#[test]
fn match_field_matches_legal_field() {
    assert_eq!(
        FieldLine { field_type: "geom_msgs/Twist".into(), field_name: "myname".into() },
        match_field("geom_msgs/Twist   myname").unwrap()
    );
}

#[test]
fn match_vector_field_matches_legal_field() {
    assert_eq!(
        FieldLine { field_type: "geom_msgs/Twist".into(), field_name: "myname".into() },
        match_vector_field("geom_msgs/Twist [  ]   myname").unwrap()
    );
}

#[test]
fn match_array_field_matches_legal_field() {
    assert_eq!(
        (FieldLine { field_type: "geom_msgs/Twist".into(), field_name: "myname".into() }, 127),
        match_array_field("geom_msgs/Twist   [   127 ]   myname").unwrap()
    );
}

#[test]
fn match_const_string_matches_legal_field() {
    assert_eq!(
        (
            FieldLine { field_type: "string".into(), field_name: "myname".into() },
            "this is # data".into()
        ),
        match_const_string("string   myname  =  this is # data").unwrap()
    );
}

#[test]
fn match_const_numeric_matches_legal_field() {
    assert_eq!(
        (FieldLine { field_type: "mytype".into(), field_name: "myname".into() }, "-444".into()),
        match_const_numeric("mytype   myname  =  -444").unwrap()
    );
}

#[test]
fn match_line_works_on_legal_data() {
    assert!(match_line("#just a comment").is_none());
    assert!(match_line("#  YOLO !   ").is_none());
    assert!(match_line("      ").is_none());

    assert_eq!(
        FieldInfo {
            datatype: DataType::RemoteStruct("geom_msgs".into(), "Twist".into()),
            name: "myname".into(),
            case: FieldCase::Unit,
        },
        match_line("  geom_msgs/Twist   myname    # this clearly should succeed").unwrap().unwrap()
    );

    assert_eq!(
        FieldInfo {
            datatype: DataType::RemoteStruct("geom_msgs".into(), "Twist".into()),
            name: "myname".into(),
            case: FieldCase::Vector,
        },
        match_line("  geom_msgs/Twist [  ]   myname  # ...").unwrap().unwrap()
    );

    assert_eq!(
        FieldInfo { datatype: DataType::U8, name: "myname".into(), case: FieldCase::Array(127) },
        match_line("  char   [   127 ]   myname# comment").unwrap().unwrap()
    );
    assert_eq!(
        FieldInfo {
            datatype: DataType::String,
            name: "myname".into(),
            case: FieldCase::Const("this is # data".into()),
        },
        match_line("  string  myname =   this is # data  ").unwrap().unwrap()
    );
    // A constant is legal only on a primitive type.
    assert_eq!(
        Some(Err(SchemaError::UnsupportedType("geom_msgs/Twist".into()))),
        match_line("  geom_msgs/Twist  myname =   -444 # data  ")
    );
}

#[test]
fn match_lines_parses_real_messages() {
    let data = match_lines(TWIST_WITH_COVARIANCE_MSG).unwrap();
    assert_eq!(
        vec![
            FieldInfo {
                datatype: DataType::LocalStruct("Twist".into()),
                name: "twist".into(),
                case: FieldCase::Unit,
            },
            FieldInfo { datatype: DataType::F64, name: "covariance".into(), case: FieldCase::Array(36) }
        ],
        data
    );

    let data = match_lines(POSE_STAMPED_MSG).unwrap();
    assert_eq!(
        vec![
            FieldInfo {
                datatype: DataType::RemoteStruct("std_msgs".into(), "Header".into()),
                name: "header".into(),
                case: FieldCase::Unit,
            },
            FieldInfo {
                datatype: DataType::LocalStruct("Pose".into()),
                name: "pose".into(),
                case: FieldCase::Unit,
            }
        ],
        data
    );
}

#[test]
fn msg_constructor_parses_real_message() {
    let data = Msg::new("geometry_msgs", "TwistWithCovariance", TWIST_WITH_COVARIANCE_MSG).unwrap();
    assert_eq!(data.package, "geometry_msgs");
    assert_eq!(data.name, "TwistWithCovariance");
    assert_eq!(
        data.fields,
        vec![
            FieldInfo {
                datatype: DataType::LocalStruct("Twist".into()),
                name: "twist".into(),
                case: FieldCase::Unit,
            },
            FieldInfo { datatype: DataType::F64, name: "covariance".into(), case: FieldCase::Array(36) }
        ]
    );
    assert_eq!(data.dependencies.len(), 1);
    assert!(data.dependencies.contains(&("geometry_msgs".into(), "Twist".into())));

    let data = Msg::new("geometry_msgs", "PoseStamped", POSE_STAMPED_MSG).unwrap();
    assert_eq!(data.package, "geometry_msgs");
    assert_eq!(data.name, "PoseStamped");
    assert_eq!(
        data.fields,
        vec![
            FieldInfo {
                datatype: DataType::RemoteStruct("std_msgs".into(), "Header".into()),
                name: "header".into(),
                case: FieldCase::Unit,
            },
            FieldInfo {
                datatype: DataType::LocalStruct("Pose".into()),
                name: "pose".into(),
                case: FieldCase::Unit,
            }
        ]
    );
    assert_eq!(data.dependencies.len(), 2);
    assert!(data.dependencies.contains(&("geometry_msgs".into(), "Pose".into())));
    assert!(data.dependencies.contains(&("std_msgs".into(), "Header".into())));

    let data = Msg::new("sensor_msgs", "Imu", IMU_MSG).unwrap();
    assert_eq!(data.package, "sensor_msgs");
    assert_eq!(data.name, "Imu");
    assert_eq!(
        data.fields,
        vec![
            FieldInfo {
                datatype: DataType::RemoteStruct("std_msgs".into(), "Header".into()),
                name: "header".into(),
                case: FieldCase::Unit,
            },
            FieldInfo {
                datatype: DataType::RemoteStruct("geometry_msgs".into(), "Quaternion".into()),
                name: "orientation".into(),
                case: FieldCase::Unit,
            },
            FieldInfo {
                datatype: DataType::F64,
                name: "orientation_covariance".into(),
                case: FieldCase::Array(9),
            },
            FieldInfo {
                datatype: DataType::RemoteStruct("geometry_msgs".into(), "Vector3".into()),
                name: "angular_velocity".into(),
                case: FieldCase::Unit,
            },
            FieldInfo {
                datatype: DataType::F64,
                name: "angular_velocity_covariance".into(),
                case: FieldCase::Array(9),
            },
            FieldInfo {
                datatype: DataType::RemoteStruct("geometry_msgs".into(), "Vector3".into()),
                name: "linear_acceleration".into(),
                case: FieldCase::Unit,
            },
            FieldInfo {
                datatype: DataType::F64,
                name: "linear_acceleration_covariance".into(),
                case: FieldCase::Array(9),
            }
        ]
    );
    assert_eq!(data.dependencies.len(), 3);
    assert!(data.dependencies.contains(&("geometry_msgs".into(), "Vector3".into())));
    assert!(data.dependencies.contains(&("geometry_msgs".into(), "Quaternion".into())));
    assert!(data.dependencies.contains(&("std_msgs".into(), "Header".into())));
}
