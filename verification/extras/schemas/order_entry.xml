<?xml version="1.0" encoding="UTF-8"?>
<sbe:messageSchema xmlns:sbe="http://fixprotocol.io/2016/sbe"
                   package="order_entry" id="1" version="0" byteOrder="littleEndian">
    <types>
        <composite name="messageHeader">
            <type name="blockLength" primitiveType="uint16"/>
            <type name="templateId" primitiveType="uint16"/>
            <type name="schemaId" primitiveType="uint16"/>
            <type name="version" primitiveType="uint16"/>
        </composite>
        <type name="Symbol" primitiveType="char" length="8"/>
        <enum name="Side" encodingType="char">
            <validValue name="Buy">1</validValue>
            <validValue name="Sell">2</validValue>
        </enum>
        <enum name="ExecType" encodingType="char">
            <validValue name="New">0</validValue>
            <validValue name="Canceled">4</validValue>
            <validValue name="Replaced">5</validValue>
            <validValue name="Rejected">8</validValue>
            <validValue name="Trade">F</validValue>
        </enum>
        <enum name="OrdStatus" encodingType="char">
            <validValue name="New">0</validValue>
            <validValue name="PartialFill">1</validValue>
            <validValue name="Canceled">4</validValue>
            <validValue name="Replaced">5</validValue>
            <validValue name="Rejected">8</validValue>
        </enum>
    </types>
    <sbe:message name="NewOrderSingle" id="1" blockLength="29">
        <field name="userRef" id="1" type="uint32" offset="0"/>
        <field name="symbol" id="2" type="Symbol" offset="4"/>
        <field name="side" id="3" type="Side" offset="12"/>
        <field name="price" id="4" type="int64" offset="13"/>
        <field name="quantity" id="5" type="uint64" offset="21"/>
    </sbe:message>
    <sbe:message name="OrderCancelRequest" id="2" blockLength="12">
        <field name="userRef" id="1" type="uint32" offset="0"/>
        <field name="quantity" id="5" type="uint64" offset="4"/>
    </sbe:message>
    <sbe:message name="OrderCancelReplaceRequest" id="3" blockLength="21">
        <field name="userRef" id="1" type="uint32" offset="0"/>
        <field name="side" id="3" type="Side" offset="4"/>
        <field name="price" id="4" type="int64" offset="5"/>
        <field name="quantity" id="5" type="uint64" offset="13"/>
    </sbe:message>
    <sbe:message name="ExecutionReport" id="4" blockLength="63">
        <field name="userRef" id="1" type="uint32" offset="0"/>
        <field name="execId" id="6" type="uint64" offset="4"/>
        <field name="orderId" id="7" type="uint64" offset="12"/>
        <field name="symbol" id="2" type="Symbol" offset="20"/>
        <field name="side" id="3" type="Side" offset="28"/>
        <field name="execType" id="8" type="ExecType" offset="29"/>
        <field name="ordStatus" id="9" type="OrdStatus" offset="30"/>
        <field name="price" id="4" type="int64" offset="31"/>
        <field name="quantity" id="5" type="uint64" offset="39"/>
        <field name="lastPx" id="10" type="int64" offset="47"/>
        <field name="lastQty" id="11" type="uint64" offset="55"/>
    </sbe:message>
    <sbe:message name="Reject" id="5" blockLength="6">
        <field name="userRef" id="1" type="uint32" offset="0"/>
        <field name="reason" id="12" type="uint16" offset="4"/>
    </sbe:message>
</sbe:messageSchema>
